use vstd::prelude::*;
use vstd::string::StringExecFns;

use crate::codec_op::{CodecOp, Property};
use crate::plan::{QueryPlan, RawVal};
use crate::types::{BasicType, EncodingType};

verus! {

/// Every operation is a real one (no opaque marker).
pub open spec fn all_known(ops: Seq<CodecOp>) -> bool {
    forall|i: int| 0 <= i < ops.len() ==> (#[trigger] ops[i]).is_known()
}

/// Stack depth after running `ops` on a stack that holds only the input.
pub open spec fn depth(ops: Seq<CodecOp>) -> int
    decreases ops.len(),
{
    if ops.len() == 0 {
        1
    } else {
        depth(ops.drop_last()) - ops.last().spec_arg_count() + 1
    }
}

/// Running `ops` on a stack that holds only the input never pops from an empty stack.
pub open spec fn runs(ops: Seq<CodecOp>) -> bool
    decreases ops.len(),
{
    ops.len() == 0 || (runs(ops.drop_last()) && ops.last().is_known() && depth(ops.drop_last())
        >= ops.last().spec_arg_count())
}

/// A well-formed postfix program: it runs and leaves exactly one value.
pub open spec fn well_formed(ops: Seq<CodecOp>) -> bool {
    runs(ops) && depth(ops) == 1
}

/// The walk from the top of the program down its leftmost operand chain, with
/// `pending` whole operand subtrees still to be passed over first: true when every
/// operation met on the chain keeps `p`.
pub open spec fn walk(ops: Seq<CodecOp>, pending: nat, p: Property) -> bool
    decreases ops.len(),
{
    if ops.len() == 0 {
        true
    } else {
        let op = ops.last();
        if pending > 0 {
            walk(ops.drop_last(), (pending - 1 + op.spec_arg_count()) as nat, p)
        } else {
            op.keeps(p) && walk(ops.drop_last(), skipped_operands(op), p)
        }
    }
}

/// The operands of `op` other than the first, which the walk passes over.
pub open spec fn skipped_operands(op: CodecOp) -> nat {
    if op.spec_arg_count() >= 1 {
        (op.spec_arg_count() - 1) as nat
    } else {
        0
    }
}

/// Whether property `p` holds along the leftmost chain of the program `ops`.
pub open spec fn has_property(ops: Seq<CodecOp>, p: Property) -> bool {
    walk(ops, 0, p)
}

/// The same walk, counting how many operations at the end of the program it collects
/// before it meets an operation on the chain that does not keep `p`.
pub open spec fn kept_count(ops: Seq<CodecOp>, pending: nat, p: Property) -> nat
    decreases ops.len(),
{
    if ops.len() == 0 {
        0
    } else {
        let op = ops.last();
        if pending > 0 {
            1 + kept_count(ops.drop_last(), (pending - 1 + op.spec_arg_count()) as nat, p)
        } else if op.keeps(p) {
            1 + kept_count(ops.drop_last(), skipped_operands(op), p)
        } else {
            0
        }
    }
}

/// The split of `ops` into the operations that remain and the trailing operations,
/// in program order, that keep property `p`.
pub open spec fn split_at_property(ops: Seq<CodecOp>, p: Property) -> (Seq<CodecOp>, Seq<
    CodecOp,
>) {
    let k = kept_count(ops, 0, p);
    (ops.subrange(0, ops.len() - k), ops.subrange(ops.len() - k, ops.len() as int))
}

/// The input type of the first operation that is not a data section.
pub open spec fn first_input_type(ops: Seq<CodecOp>) -> EncodingType
    decreases ops.len(),
{
    if ops.len() == 0 {
        EncodingType::U8
    } else if ops[0] is PushDataSection {
        first_input_type(ops.drop_first())
    } else {
        ops[0].spec_input_type()
    }
}

/// The plan stack after lowering one operation.
pub open spec fn lower_op(op: CodecOp, name: String, stack: Seq<QueryPlan>) -> Seq<QueryPlan> {
    let n = stack.len();
    match op {
        CodecOp::Add(t, x) => stack.drop_last().push(
            QueryPlan::AddVS(
                t,
                Box::new(stack.last()),
                Box::new(QueryPlan::Constant(RawVal::Int(x), true)),
            ),
        ),
        CodecOp::Delta(t) => stack.drop_last().push(
            QueryPlan::DeltaDecode(Box::new(stack.last()), t),
        ),
        CodecOp::ToI64(t) => stack.drop_last().push(
            QueryPlan::Cast(Box::new(stack.last()), t, EncodingType::I64),
        ),
        CodecOp::PushDataSection(i) => stack.push(QueryPlan::ReadColumnSection(name, i, None)),
        CodecOp::DictLookup(t) => stack.subrange(0, n - 3).push(
            QueryPlan::DictLookup(
                Box::new(stack[n - 3]),
                t,
                Box::new(stack[n - 2]),
                Box::new(stack[n - 1]),
            ),
        ),
        CodecOp::LZ4(t, len) => stack.drop_last().push(
            QueryPlan::LZ4Decode(Box::new(stack.last()), len, t),
        ),
        CodecOp::UnpackStrings => stack.drop_last().push(
            QueryPlan::UnpackStrings(Box::new(stack.last())),
        ),
        CodecOp::Unknown => stack,
    }
}

/// The plan stack after lowering `ops` in program order onto `stack`.
pub open spec fn lower(ops: Seq<CodecOp>, name: String, stack: Seq<QueryPlan>) -> Seq<QueryPlan>
    decreases ops.len(),
{
    if ops.len() == 0 {
        stack
    } else {
        lower_op(ops.last(), name, lower(ops.drop_last(), name, stack))
    }
}

/// The plan that decodes `input` through `ops`, reading data sections of column `name`.
pub open spec fn lowered(ops: Seq<CodecOp>, name: String, input: QueryPlan) -> QueryPlan {
    lower(ops, name, seq![input])[0]
}

proof fn lemma_lower_len(ops: Seq<CodecOp>, name: String, input: QueryPlan)
    requires
        runs(ops),
    ensures
        lower(ops, name, seq![input]).len() == depth(ops),
        depth(ops) >= 1,
    decreases ops.len(),
{
    if ops.len() > 0 {
        lemma_lower_len(ops.drop_last(), name, input);
    }
}

/// Lowering a well-formed program onto the input leaves exactly one plan.
pub proof fn lemma_decode_leaves_one_plan(ops: Seq<CodecOp>, name: String, input: QueryPlan)
    requires
        well_formed(ops),
    ensures
        lower(ops, name, seq![input]).len() == 1,
{
    lemma_lower_len(ops, name, input);
}

proof fn lemma_runs_prefix(ops: Seq<CodecOp>, i: int)
    requires
        runs(ops),
        0 <= i <= ops.len(),
    ensures
        runs(ops.take(i)),
    decreases ops.len() - i,
{
    if i < ops.len() {
        lemma_runs_prefix(ops.drop_last(), i);
        assert(ops.drop_last().take(i) =~= ops.take(i));
    } else {
        assert(ops.take(i) =~= ops);
    }
}

proof fn lemma_runs_known(ops: Seq<CodecOp>)
    requires
        runs(ops),
    ensures
        all_known(ops),
    decreases ops.len(),
{
    if ops.len() > 0 {
        lemma_runs_known(ops.drop_last());
        assert forall|i: int| 0 <= i < ops.len() implies (#[trigger] ops[i]).is_known() by {
            if i < ops.len() - 1 {
                assert(ops.drop_last()[i] == ops[i]);
            }
        }
    }
}

/// A non-empty well-formed program ends in an operation that consumes values.
proof fn lemma_last_consumes(ops: Seq<CodecOp>)
    requires
        well_formed(ops),
        ops.len() > 0,
    ensures
        ops.last().is_consumer(),
{
    lemma_depth_positive(ops.drop_last());
}

proof fn lemma_depth_positive(ops: Seq<CodecOp>)
    requires
        runs(ops),
    ensures
        depth(ops) >= 1,
    decreases ops.len(),
{
    if ops.len() > 0 {
        lemma_depth_positive(ops.drop_last());
    }
}

/// The split keeps every operation, in order.
proof fn lemma_kept_count_bound(ops: Seq<CodecOp>, pending: nat, p: Property)
    ensures
        kept_count(ops, pending, p) <= ops.len(),
        kept_count(ops, pending, p) < ops.len() ==> !ops[ops.len() - 1 - kept_count(ops, pending, p)].keeps(p),
    decreases ops.len(),
{
    if ops.len() > 0 {
        let op = ops.last();
        if pending > 0 {
            lemma_kept_count_bound(ops.drop_last(), (pending - 1 + op.spec_arg_count()) as nat, p);
        } else if op.keeps(p) {
            lemma_kept_count_bound(ops.drop_last(), skipped_operands(op), p);
        }
    }
}

proof fn lemma_kept_suffix_walks(ops: Seq<CodecOp>, pending: nat, p: Property)
    ensures
        kept_count(ops, pending, p) <= ops.len(),
        walk(ops.subrange(ops.len() - kept_count(ops, pending, p), ops.len() as int), pending, p),
    decreases ops.len(),
{
    lemma_kept_count_bound(ops, pending, p);
    if ops.len() > 0 {
        let op = ops.last();
        let k = kept_count(ops, pending, p);
        let suffix = ops.subrange(ops.len() - k, ops.len() as int);
        let next = if pending > 0 {
            (pending - 1 + op.spec_arg_count()) as nat
        } else {
            skipped_operands(op)
        };
        if pending > 0 || op.keeps(p) {
            lemma_kept_suffix_walks(ops.drop_last(), next, p);
            let dl = ops.drop_last();
            assert(suffix.drop_last() =~= dl.subrange(
                dl.len() - kept_count(dl, next, p),
                dl.len() as int,
            ));
            assert(suffix.last() == op);
        } else {
            assert(suffix.len() == 0);
        }
    }
}

proof fn lemma_depth_concat(a: Seq<CodecOp>, b: Seq<CodecOp>)
    ensures
        depth(a + b) == depth(a) + depth(b) - 1,
    decreases b.len(),
{
    if b.len() == 0 {
        assert(a + b =~= a);
    } else {
        lemma_depth_concat(a, b.drop_last());
        assert((a + b).drop_last() =~= a + b.drop_last());
        assert((a + b).last() == b.last());
    }
}

proof fn lemma_runs_suffix(a: Seq<CodecOp>, b: Seq<CodecOp>)
    requires
        runs(a + b),
        depth(a) == 1,
    ensures
        runs(b),
    decreases b.len(),
{
    if b.len() > 0 {
        assert((a + b).drop_last() =~= a + b.drop_last());
        assert((a + b).last() == b.last());
        lemma_runs_suffix(a, b.drop_last());
        lemma_depth_concat(a, b.drop_last());
    }
}

proof fn lemma_rest_depth(ops: Seq<CodecOp>, pending: nat, p: Property)
    requires
        runs(ops),
        depth(ops) == 1 + pending,
    ensures
        kept_count(ops, pending, p) <= ops.len(),
        depth(ops.take(ops.len() - kept_count(ops, pending, p))) == 1,
    decreases ops.len(),
{
    lemma_kept_count_bound(ops, pending, p);
    if ops.len() == 0 {
        assert(ops.take(0) =~= ops);
    } else {
        let op = ops.last();
        let dl = ops.drop_last();
        if pending > 0 || op.keeps(p) {
            if pending == 0 && op.spec_arg_count() == 0 {
                lemma_depth_positive(dl);
            }
            let next = if pending > 0 {
                (pending - 1 + op.spec_arg_count()) as nat
            } else {
                skipped_operands(op)
            };
            lemma_rest_depth(dl, next, p);
            assert(ops.take(ops.len() - kept_count(ops, pending, p)) =~= dl.take(
                dl.len() - kept_count(dl, next, p),
            ));
        } else {
            assert(ops.take(ops.len() as int) =~= ops);
        }
    }
}

/// Both parts of the split of a well-formed program are well-formed programs.
pub proof fn lemma_split_well_formed(ops: Seq<CodecOp>, p: Property)
    requires
        well_formed(ops),
    ensures
        well_formed(split_at_property(ops, p).0),
        well_formed(split_at_property(ops, p).1),
{
    lemma_rest_depth(ops, 0, p);
    let (rest, kept) = split_at_property(ops, p);
    assert(rest =~= ops.take(rest.len() as int));
    lemma_runs_prefix(ops, rest.len() as int);
    assert(rest + kept =~= ops);
    lemma_depth_concat(rest, kept);
    lemma_runs_suffix(rest, kept);
}

/// Splitting a program at a property: the two parts put back together give the program,
/// the trailing part keeps the property along its chain, and the remaining part, when
/// not empty, ends in an operation that does not keep it.
pub proof fn lemma_split_at_property(ops: Seq<CodecOp>, p: Property)
    ensures
        split_at_property(ops, p).0 + split_at_property(ops, p).1 == ops,
        has_property(split_at_property(ops, p).1, p),
        split_at_property(ops, p).0.len() > 0 ==> !split_at_property(ops, p).0.last().keeps(p),
{
    lemma_kept_suffix_walks(ops, 0, p);
    lemma_kept_count_bound(ops, 0, p);
    let (rest, kept) = split_at_property(ops, p);
    assert(rest + kept =~= ops);
    if rest.len() > 0 {
        assert(rest.last() == ops[ops.len() - 1 - kept_count(ops, 0, p)]);
    }
}

} // verus!

verus! {

/// The text of a program's signature: each operation's signature followed by a space.
pub open spec fn ops_signature(ops: Seq<CodecOp>, alternate: bool) -> Seq<char>
    decreases ops.len(),
{
    if ops.len() == 0 {
        Seq::empty()
    } else {
        ops_signature(ops.drop_last(), alternate) + ops.last().spec_signature(alternate) + seq![' ']
    }
}

/// The canonical program of a dictionary-encoded string column.
pub open spec fn is_dictionary_strings(ops: Seq<CodecOp>) -> bool {
    ops.len() == 3 && ops[0] == CodecOp::PushDataSection(1) && ops[1] == CodecOp::PushDataSection(2)
        && ops[2] is DictLookup
}

/// The decoding program of a column together with what it implies about the encoding.
#[derive(Debug, Clone)]
pub struct Codec {
    ops: Vec<CodecOp>,
    column_name: String,
    encoding_type: EncodingType,
    decoded_type: BasicType,
    is_summation_preserving: bool,
    is_order_preserving: bool,
    is_positive_integer: bool,
    is_fixed_width: bool,
}

impl Codec {
    pub closed spec fn spec_ops(&self) -> Seq<CodecOp> {
        self.ops@
    }

    pub closed spec fn spec_column_name(&self) -> String {
        self.column_name
    }

    pub closed spec fn spec_encoding_type(&self) -> EncodingType {
        self.encoding_type
    }

    pub closed spec fn spec_decoded_type(&self) -> BasicType {
        self.decoded_type
    }

    /// The stored flag for property `p`.
    pub closed spec fn spec_flag(&self, p: Property) -> bool {
        match p {
            Property::SummationPreserving => self.is_summation_preserving,
            Property::OrderPreserving => self.is_order_preserving,
            Property::PositiveInteger => self.is_positive_integer,
            Property::ElementwiseDecodable => self.is_fixed_width,
        }
    }

    /// A codec whose program is the opaque marker; its flags were given by its maker.
    pub open spec fn is_opaque(&self) -> bool {
        self.spec_ops() == seq![CodecOp::Unknown]
    }

    /// An opaque codec, or a well-formed program whose stored types and flags are
    /// those that the program itself determines.
    pub open spec fn wf(&self) -> bool {
        self.is_opaque() || (well_formed(self.spec_ops()) && (forall|p: Property|
            #[trigger] self.spec_flag(p) == has_property(self.spec_ops(), p)) && if self.spec_ops().len()
            == 0 {
            self.spec_encoding_type() == self.spec_decoded_type().spec_to_encoded()
        } else {
            self.spec_encoding_type() == first_input_type(self.spec_ops())
                && self.spec_decoded_type() == self.spec_ops().last().spec_output_type()
        })
    }

    /// Whether property `p` holds along the leftmost operand chain of `ops`.
    pub fn has_property(ops: &[CodecOp], p: Property) -> (r: bool)
        requires
            all_known(ops@),
        ensures
            r == has_property(ops@, p),
    {
        let len = ops.len();
        let mut end: usize = len;
        let mut pending: u128 = 0;
        assert(ops@.take(end as int) =~= ops@);
        while end > 0
            invariant
                len == ops@.len(),
                end <= ops@.len(),
                all_known(ops@),
                pending <= 2 * (ops@.len() - end),
                walk(ops@.take(end as int), pending as nat, p) == has_property(ops@, p),
            decreases end,
        {
            let op = ops[end - 1];
            assert(ops@.take(end as int).drop_last() =~= ops@.take(end - 1));
            assert(op.is_known());
            let n = op.arg_count();
            if pending > 0 {
                pending = pending - 1 + n as u128;
            } else {
                if !op.keeps_property(p) {
                    return false;
                }
                pending = if n >= 1 { (n - 1) as u128 } else { 0 };
            }
            end -= 1;
        }
        true
    }

    /// Splits the program into the operations that remain and the trailing operations,
    /// in program order, that have to run to keep property `p`.
    pub fn ensure_property(&self, p: Property) -> (r: (Vec<CodecOp>, Vec<CodecOp>))
        requires
            all_known(self.spec_ops()),
        ensures
            r.0@ == split_at_property(self.spec_ops(), p).0,
            r.1@ == split_at_property(self.spec_ops(), p).1,
    {
        let ops = &self.ops;
        let len = ops.len();
        let mut end: usize = len;
        let mut pending: u128 = 0;
        assert(ops@.take(end as int) =~= ops@);
        while end > 0 && (pending > 0 || ops[end - 1].keeps_property(p))
            invariant
                len == ops@.len(),
                end <= len,
                all_known(ops@),
                pending <= 2 * (len - end),
                kept_count(ops@.take(end as int), pending as nat, p) + (len - end)
                    == kept_count(ops@, 0, p),
            decreases end,
        {
            let op = ops[end - 1];
            assert(ops@.take(end as int).drop_last() =~= ops@.take(end - 1));
            assert(ops@.take(end as int).last() == op);
            let n = op.arg_count();
            if pending > 0 {
                pending = pending - 1 + n as u128;
            } else {
                pending = if n >= 1 { (n - 1) as u128 } else { 0 };
            }
            end -= 1;
        }
        if end > 0 {
            assert(ops@.take(end as int).last() == ops@[end - 1]);
        }
        assert(ops@.take(0) =~= Seq::<CodecOp>::empty());
        assert(kept_count(ops@, 0, p) == ops@.len() - end);
        let mut rest: Vec<CodecOp> = Vec::new();
        let mut kept: Vec<CodecOp> = Vec::new();
        let mut i: usize = 0;
        while i < ops.len()
            invariant
                end <= ops@.len(),
                i <= ops@.len(),
                rest@ == ops@.subrange(0, if i < end { i as int } else { end as int }),
                kept@ == ops@.subrange(end as int, if i < end { end as int } else { i as int }),
            decreases ops@.len() - i,
        {
            if i < end {
                rest.push(ops[i]);
            } else {
                kept.push(ops[i]);
            }
            i += 1;
            assert(rest@ =~= ops@.subrange(0, if i < end { i as int } else { end as int }));
            assert(kept@ =~= ops@.subrange(end as int, if i < end { end as int } else { i as int }));
        }
        (rest, kept)
    }

    /// A codec for the program `ops`, with the flags and types that the program determines.
    pub fn new(ops: Vec<CodecOp>) -> (r: Codec)
        requires
            well_formed(ops@),
            ops@.len() > 0,
        ensures
            r.wf(),
            !r.is_opaque(),
            r.spec_ops() == ops@,
            r.spec_column_name()@ == "COLUMN_UNSPECIFIED"@,
    {
        proof {
            lemma_runs_known(ops@);
            lemma_last_consumes(ops@);
        }
        let len = ops.len();
        let mut i: usize = 0;
        assert(ops@.skip(0) =~= ops@);
        while ops[i].is_push_data_section()
            invariant
                len == ops@.len(),
                i < ops@.len(),
                ops@.last().is_consumer(),
                first_input_type(ops@.skip(i as int)) == first_input_type(ops@),
            decreases ops@.len() - i,
        {
            assert(ops@[i as int] is PushDataSection);
            assert(i != ops@.len() - 1);
            assert(ops@.skip(i as int).drop_first() =~= ops@.skip(i + 1));
            i += 1;
        }
        let encoding_type = ops[i].input_type();
        let decoded_type = ops[ops.len() - 1].output_type();
        let is_summation_preserving = Codec::has_property(ops.as_slice(), Property::SummationPreserving);
        let is_order_preserving = Codec::has_property(ops.as_slice(), Property::OrderPreserving);
        let is_positive_integer = Codec::has_property(ops.as_slice(), Property::PositiveInteger);
        let is_fixed_width = Codec::has_property(ops.as_slice(), Property::ElementwiseDecodable);
        let r = Codec {
            ops,
            column_name: "COLUMN_UNSPECIFIED".to_owned(),
            encoding_type,
            decoded_type,
            is_summation_preserving,
            is_order_preserving,
            is_positive_integer,
            is_fixed_width,
        };
        assert(r.ops@ != seq![CodecOp::Unknown]);
        r
    }
}


/// What `encode_int` turns the constant `x` into, for a program of one offset or one cast.
pub open spec fn encoded_int(ops: Seq<CodecOp>, x: i64) -> int {
    match ops[0] {
        CodecOp::Add(_, k) => x - k,
        _ => x as int,
    }
}

/// A program that `encode_int` accepts: one offset, or one cast, whose result fits in `i64`.
pub open spec fn encodes_int(ops: Seq<CodecOp>, x: i64) -> bool {
    ops.len() == 1 && (ops[0] is Add || ops[0] is ToI64) && i64::MIN <= encoded_int(ops, x)
        <= i64::MAX
}

/// Encoding a constant into an offset codec subtracts the offset; into a cast codec it
/// leaves the constant as it is.
pub proof fn lemma_encode_int_round_trip(t: EncodingType, k: i64, x: i64)
    ensures
        encoded_int(seq![CodecOp::Add(t, k)], x) == x - k,
        encoded_int(seq![CodecOp::ToI64(t)], x) == x,
{
}

proof fn lemma_prepend_unary(x: CodecOp, ops: Seq<CodecOp>)
    requires
        x.is_known(),
        x.spec_arg_count() == 1,
        runs(ops),
    ensures
        runs(seq![x] + ops),
        depth(seq![x] + ops) == depth(ops),
    decreases ops.len(),
{
    if ops.len() == 0 {
        let s = seq![x] + ops;
        assert(s.drop_last() =~= Seq::<CodecOp>::empty());
        assert(s.last() == x);
        assert(runs(s.drop_last()));
        assert(depth(s.drop_last()) == 1);
    } else {
        let s = seq![x] + ops;
        lemma_prepend_unary(x, ops.drop_last());
        assert(s.drop_last() =~= seq![x] + ops.drop_last());
        assert(s.last() == ops.last());
        assert(runs(s.drop_last()));
        assert(depth(s.drop_last()) == depth(ops.drop_last()));
    }
}

proof fn lemma_single_op(x: CodecOp)
    requires
        x.is_known(),
        x.spec_arg_count() == 1,
    ensures
        well_formed(seq![x]),
{
    lemma_prepend_unary(x, Seq::empty());
    assert(seq![x] + Seq::<CodecOp>::empty() =~= seq![x]);
}

impl Codec {
    /// The codec of a column stored in the canonical encoding of `t`: an empty program.
    pub fn identity(t: BasicType) -> (r: Codec)
        ensures
            r.wf(),
            r.spec_ops() == Seq::<CodecOp>::empty(),
            forall|p: Property| #[trigger] r.spec_flag(p),
            r.spec_decoded_type() == t,
            r.spec_encoding_type() == t.spec_to_encoded(),
            r.spec_column_name()@ == "COLUMN_UNSPECIFIED"@,
    {
        let r = Codec {
            ops: Vec::new(),
            column_name: "COLUMN_UNSPECIFIED".to_owned(),
            encoding_type: t.to_encoded(),
            decoded_type: t,
            is_summation_preserving: true,
            is_order_preserving: true,
            is_positive_integer: true,
            is_fixed_width: true,
        };
        assert(r.ops@.len() != seq![CodecOp::Unknown].len());
        r
    }

    /// Integers stored with `offset` subtracted.
    pub fn integer_offset(t: EncodingType, offset: i64) -> (r: Codec)
        ensures
            r.wf(),
            !r.is_opaque(),
            r.spec_ops() == seq![CodecOp::Add(t, offset)],
            r.spec_column_name()@ == "COLUMN_UNSPECIFIED"@,
    {
        proof {
            lemma_single_op(CodecOp::Add(t, offset));
        }
        let ops = vec![CodecOp::Add(t, offset)];
        assert(ops@ =~= seq![CodecOp::Add(t, offset)]);
        Codec::new(ops)
    }

    /// Integers stored in a narrower type and widened to `i64`.
    pub fn integer_cast(t: EncodingType) -> (r: Codec)
        ensures
            r.wf(),
            !r.is_opaque(),
            r.spec_ops() == seq![CodecOp::ToI64(t)],
            r.spec_column_name()@ == "COLUMN_UNSPECIFIED"@,
    {
        proof {
            lemma_single_op(CodecOp::ToI64(t));
        }
        let ops = vec![CodecOp::ToI64(t)];
        assert(ops@ =~= seq![CodecOp::ToI64(t)]);
        Codec::new(ops)
    }

    /// Values of type `t` stored as LZ4-compressed bytes.
    pub fn lz4(t: EncodingType, decoded_length: usize) -> (r: Codec)
        ensures
            r.wf(),
            !r.is_opaque(),
            r.spec_ops() == seq![CodecOp::LZ4(t, decoded_length)],
            r.spec_column_name()@ == "COLUMN_UNSPECIFIED"@,
    {
        proof {
            lemma_single_op(CodecOp::LZ4(t, decoded_length));
        }
        let ops = vec![CodecOp::LZ4(t, decoded_length)];
        assert(ops@ =~= seq![CodecOp::LZ4(t, decoded_length)]);
        Codec::new(ops)
    }

    /// A codec whose program is not known; its types and flags are taken as given.
    pub fn opaque(
        encoding_type: EncodingType,
        decoded_type: BasicType,
        is_summation_preserving: bool,
        is_order_preserving: bool,
        is_positive_integer: bool,
        is_fixed_width: bool,
    ) -> (r: Codec)
        ensures
            r.wf(),
            r.is_opaque(),
            r.spec_encoding_type() == encoding_type,
            r.spec_decoded_type() == decoded_type,
            r.spec_flag(Property::SummationPreserving) == is_summation_preserving,
            r.spec_flag(Property::OrderPreserving) == is_order_preserving,
            r.spec_flag(Property::PositiveInteger) == is_positive_integer,
            r.spec_flag(Property::ElementwiseDecodable) == is_fixed_width,
            r.spec_column_name()@ == "COLUMN_UNSPECIFIED"@,
    {
        let r = Codec {
            ops: vec![CodecOp::Unknown],
            column_name: "COLUMN_UNSPECIFIED".to_owned(),
            encoding_type,
            decoded_type,
            is_summation_preserving,
            is_order_preserving,
            is_positive_integer,
            is_fixed_width,
        };
        assert(r.ops@ =~= seq![CodecOp::Unknown]);
        r
    }

    /// The same codec for data whose bytes are LZ4-compressed: one decompression runs first.
    pub fn with_lz4(&self, decoded_length: usize) -> (r: Codec)
        requires
            self.wf(),
            !self.is_opaque(),
        ensures
            r.wf(),
            !r.is_opaque(),
            r.spec_ops() == seq![CodecOp::LZ4(self.spec_encoding_type(), decoded_length)]
                + self.spec_ops(),
            r.spec_column_name() == self.spec_column_name(),
    {
        let first = CodecOp::LZ4(self.encoding_type, decoded_length);
        let mut ops = vec![first];
        let mut i: usize = 0;
        while i < self.ops.len()
            invariant
                i <= self.ops@.len(),
                ops@ == seq![first] + self.ops@.take(i as int),
            decreases self.ops@.len() - i,
        {
            ops.push(self.ops[i]);
            i += 1;
            assert(ops@ =~= seq![first] + self.ops@.take(i as int));
        }
        assert(self.ops@.take(i as int) =~= self.ops@);
        proof {
            lemma_prepend_unary(first, self.ops@);
        }
        Codec::new(ops).renamed(self.column_name.clone())
    }

    /// The plan that fully decodes `plan`, the column's raw data, through this codec.
    pub fn decode(&self, plan: Box<QueryPlan>) -> (r: Box<QueryPlan>)
        requires
            self.wf(),
            !self.is_opaque(),
        ensures
            *r == lowered(self.spec_ops(), self.spec_column_name(), *plan),
    {
        self.decode_ops(self.ops.as_slice(), plan)
    }

    fn decode_ops(&self, ops: &[CodecOp], plan: Box<QueryPlan>) -> (r: Box<QueryPlan>)
        requires
            well_formed(ops@),
        ensures
            *r == lowered(ops@, self.spec_column_name(), *plan),
    {
        let ghost name = self.column_name;
        let ghost input = *plan;
        let mut stack: Vec<QueryPlan> = Vec::new();
        stack.push(*plan);
        assert(ops@.take(0) =~= Seq::<CodecOp>::empty());
        assert(stack@ =~= seq![input]);
        let len = ops.len();
        let mut i: usize = 0;
        while i < len
            invariant
                len == ops@.len(),
                i <= len,
                well_formed(ops@),
                stack@ == lower(ops@.take(i as int), name, seq![input]),
                stack@.len() == depth(ops@.take(i as int)),
                name == self.column_name,
            decreases len - i,
        {
            proof {
                lemma_runs_prefix(ops@, i + 1);
                assert(ops@.take(i + 1).drop_last() =~= ops@.take(i as int));
                assert(ops@.take(i + 1).last() == ops@[i as int]);
            }
            let ghost before = stack@;
            let plan = match ops[i] {
                CodecOp::Add(t, x) => QueryPlan::AddVS(
                    t,
                    Box::new(stack.pop().unwrap()),
                    Box::new(QueryPlan::Constant(RawVal::Int(x), true)),
                ),
                CodecOp::Delta(t) => QueryPlan::DeltaDecode(Box::new(stack.pop().unwrap()), t),
                CodecOp::ToI64(t) => QueryPlan::Cast(
                    Box::new(stack.pop().unwrap()),
                    t,
                    EncodingType::I64,
                ),
                CodecOp::PushDataSection(section_index) => QueryPlan::ReadColumnSection(
                    self.column_name.clone(),
                    section_index,
                    None,
                ),
                CodecOp::DictLookup(t) => {
                    let dict_data = stack.pop().unwrap();
                    let dict_indices = stack.pop().unwrap();
                    let indices = stack.pop().unwrap();
                    QueryPlan::DictLookup(
                        Box::new(indices),
                        t,
                        Box::new(dict_indices),
                        Box::new(dict_data),
                    )
                },
                CodecOp::LZ4(t, decoded_length) => QueryPlan::LZ4Decode(
                    Box::new(stack.pop().unwrap()),
                    decoded_length,
                    t,
                ),
                CodecOp::UnpackStrings => QueryPlan::UnpackStrings(Box::new(stack.pop().unwrap())),
                CodecOp::Unknown => {
                    proof {
                        lemma_runs_known(ops@);
                        assert(ops@[i as int].is_known());
                    }
                    QueryPlan::Constant(RawVal::Null, true)
                },
            };
            stack.push(plan);
            i += 1;
            assert(stack@ =~= lower_op(ops@[i - 1], name, before));
        }
        assert(ops@.take(len as int) =~= ops@);
        Box::new(stack.pop().unwrap())
    }

    /// Splits decoding in two: the plan that decodes `plan` until every element can be
    /// addressed on its own, and the codec that finishes decoding after that.
    pub fn ensure_fixed_width(&self, plan: Box<QueryPlan>) -> (r: (Codec, Box<QueryPlan>))
        requires
            self.wf(),
            !self.is_opaque(),
        ensures
            r.0.wf(),
            !r.0.is_opaque(),
            r.0.spec_ops() == split_at_property(self.spec_ops(), Property::ElementwiseDecodable).1,
            r.0.spec_ops().len() == 0 ==> r.0.spec_decoded_type() == self.spec_decoded_type(),
            r.0.spec_column_name() == self.spec_column_name(),
            *r.1 == lowered(
                split_at_property(self.spec_ops(), Property::ElementwiseDecodable).0,
                self.spec_column_name(),
                *plan,
            ),
    {
        proof {
            lemma_runs_known(self.ops@);
            lemma_split_well_formed(self.ops@, Property::ElementwiseDecodable);
        }
        let (fixed_width, rest) = self.ensure_property(Property::ElementwiseDecodable);
        let new_codec = if rest.len() == 0 {
            Codec::identity(self.decoded_type)
        } else {
            Codec::new(rest)
        }.renamed(self.column_name.clone());
        let decoded = self.decode_ops(fixed_width.as_slice(), plan);
        (new_codec, decoded)
    }

    pub fn ops(&self) -> (r: &[CodecOp])
        ensures
            r@ == self.spec_ops(),
    {
        self.ops.as_slice()
    }

    pub fn encoding_type(&self) -> (r: EncodingType)
        ensures
            r == self.spec_encoding_type(),
    {
        self.encoding_type
    }

    pub fn decoded_type(&self) -> (r: BasicType)
        ensures
            r == self.spec_decoded_type(),
    {
        self.decoded_type
    }

    pub fn is_summation_preserving(&self) -> (r: bool)
        ensures
            r == self.spec_flag(Property::SummationPreserving),
    {
        self.is_summation_preserving
    }

    pub fn is_order_preserving(&self) -> (r: bool)
        ensures
            r == self.spec_flag(Property::OrderPreserving),
    {
        self.is_order_preserving
    }

    pub fn is_positive_integer(&self) -> (r: bool)
        ensures
            r == self.spec_flag(Property::PositiveInteger),
    {
        self.is_positive_integer
    }

    pub fn is_elementwise_decodable(&self) -> (r: bool)
        ensures
            r == self.spec_flag(Property::ElementwiseDecodable),
    {
        self.is_fixed_width
    }

    pub fn is_identity(&self) -> (r: bool)
        ensures
            r == (self.spec_ops().len() == 0),
    {
        self.ops.len() == 0
    }

    /// Rewrites the string constant `string_const` into the dictionary index that
    /// stands for it in this column.
    pub fn encode_str(&self, string_const: Box<QueryPlan>) -> (r: Box<QueryPlan>)
        requires
            is_dictionary_strings(self.spec_ops()),
        ensures
            *r == QueryPlan::InverseDictLookup(
                Box::new(QueryPlan::ReadColumnSection(self.spec_column_name(), 1, None)),
                Box::new(QueryPlan::ReadColumnSection(self.spec_column_name(), 2, None)),
                string_const,
            ),
    {
        Box::new(
            QueryPlan::InverseDictLookup(
                Box::new(QueryPlan::ReadColumnSection(self.column_name.clone(), 1, None)),
                Box::new(QueryPlan::ReadColumnSection(self.column_name.clone(), 2, None)),
                string_const,
            ),
        )
    }

    /// Rewrites the integer constant `x` into the encoded domain of this column.
    pub fn encode_int(&self, x: i64) -> (r: RawVal)
        requires
            encodes_int(self.spec_ops(), x),
        ensures
            r == RawVal::Int(encoded_int(self.spec_ops(), x) as i64),
    {
        match self.ops[0] {
            CodecOp::Add(_, y) => RawVal::Int(x - y),
            _ => RawVal::Int(x),
        }
    }

    /// This codec, attached to the column `name`.
    fn renamed(self, name: String) -> (r: Codec)
        ensures
            r.spec_column_name() == name,
            r.spec_ops() == self.spec_ops(),
            r.spec_encoding_type() == self.spec_encoding_type(),
            r.spec_decoded_type() == self.spec_decoded_type(),
            forall|p: Property| #[trigger] r.spec_flag(p) == self.spec_flag(p),
            self.wf() ==> r.wf(),
    {
        let r = Codec { column_name: name, ..self };
        proof {
            if self.wf() && !self.is_opaque() {
                assert forall|p: Property| #[trigger]
                    r.spec_flag(p) == has_property(r.spec_ops(), p) by {
                    assert(self.spec_flag(p) == has_property(self.spec_ops(), p));
                }
            }
        }
        r
    }

    /// Attaches this codec to the column `name`; its data sections are read from there.
    pub fn set_column_name(&mut self, name: &str)
        ensures
            final(self).spec_column_name()@ == name@,
            final(self).spec_ops() == old(self).spec_ops(),
            final(self).spec_encoding_type() == old(self).spec_encoding_type(),
            final(self).spec_decoded_type() == old(self).spec_decoded_type(),
            forall|p: Property| #[trigger] final(self).spec_flag(p) == old(self).spec_flag(p),
    {
        self.column_name = name.to_owned();
    }

    /// The signatures of the operations, each followed by a space.
    pub fn signature(&self, alternate: bool) -> (r: String)
        ensures
            r@ == ops_signature(self.spec_ops(), alternate),
    {
        let mut s = String::new();
        let mut i: usize = 0;
        while i < self.ops.len()
            invariant
                i <= self.ops@.len(),
                s@ == ops_signature(self.ops@.take(i as int), alternate),
            decreases self.ops@.len() - i,
        {
            proof {
                reveal_strlit(" ");
                assert(self.ops@.take(i + 1).drop_last() =~= self.ops@.take(i as int));
            }
            self.ops[i].push_signature(&mut s, alternate);
            s.append(" ");
            i += 1;
        }
        assert(self.ops@.take(i as int) =~= self.ops@);
        s
    }
}

/// For every well-formed codec, each stored flag is the result of a fresh walk of its program.
pub proof fn lemma_flags_match_walk(c: Codec, p: Property)
    requires
        c.wf(),
        !c.is_opaque(),
    ensures
        c.spec_flag(p) == has_property(c.spec_ops(), p),
{
}

} // verus!
