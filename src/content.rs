//! Content-stream operators: an operator name with its operands.

use vstd::prelude::*;
use vstd::string::*;
use lopdf::Object;

verus! {

/// One operand of a content-stream operator.
#[derive(Debug)]
pub enum Operand {
    /// A name, written `/Name`.
    Name(String),
    /// A literal string, written `(text)`.
    Text(String),
    /// An integer.
    Integer(i64),
    /// A number (or any other object) made by the caller.
    Number(Object),
}

impl Operand {
    /// A copy of this operand.
    pub fn duplicate(&self) -> (r: Operand)
        ensures
            r == *self,
    {
        match self {
            Operand::Name(s) => Operand::Name(s.clone()),
            Operand::Text(s) => Operand::Text(s.clone()),
            Operand::Integer(i) => Operand::Integer(*i),
            Operand::Number(o) => Operand::Number(o.clone()),
        }
    }
}

impl Clone for Operand {
    fn clone(&self) -> (r: Operand)
        ensures
            r == *self,
    {
        self.duplicate()
    }
}

/// A content-stream operator and its operands.
#[derive(Debug)]
pub struct Op {
    pub operator: String,
    pub operands: Vec<Operand>,
}

/// An operator as a value: its name and its operands.
pub type OpView = (Seq<char>, Seq<Operand>);

impl View for Op {
    type V = OpView;

    open spec fn view(&self) -> OpView {
        (self.operator@, self.operands@)
    }
}

/// An operator without operands.
pub open spec fn bare(operator: Seq<char>) -> OpView {
    (operator, Seq::empty())
}

/// `o` is the name `name`.
pub open spec fn is_name(o: Operand, name: Seq<char>) -> bool {
    match o {
        Operand::Name(n) => n@ == name,
        _ => false,
    }
}

/// `v` is the operator `operator` with the one operand `/name`.
pub open spec fn is_name_op(v: OpView, operator: Seq<char>, name: Seq<char>) -> bool {
    &&& v.0 == operator
    &&& v.1.len() == 1
    &&& is_name(v.1[0], name)
}

/// The values of a sequence of operators.
pub open spec fn ops_view(ops: Seq<Op>) -> Seq<OpView> {
    ops.map_values(|o: Op| o@)
}

/// A copy of `v`.
pub fn copy_operands(v: &Vec<Operand>) -> (r: Vec<Operand>)
    ensures
        r@ == v@,
{
    let mut out: Vec<Operand> = Vec::new();
    let mut i: usize = 0;
    while i < v.len()
        invariant
            i <= v@.len(),
            out@ == v@.subrange(0, i as int),
        decreases v@.len() - i,
    {
        out.push(v[i].duplicate());
        i = i + 1;
        assert(out@ =~= v@.subrange(0, i as int));
    }
    assert(out@ =~= v@);
    out
}

impl Op {
    /// The operator `operator` with `operands`.
    pub fn new(operator: &str, operands: Vec<Operand>) -> (r: Op)
        ensures
            r@ == (operator@, operands@),
    {
        Op { operator: String::from_str(operator), operands }
    }

    /// The operator `operator` without operands.
    pub fn bare(operator: &str) -> (r: Op)
        ensures
            r@ == bare(operator@),
    {
        let r = Op { operator: String::from_str(operator), operands: Vec::new() };
        assert(r@.1 =~= Seq::<Operand>::empty());
        r
    }

    /// The operator `operator` with one name operand.
    pub fn with_name(operator: &str, name: &str) -> (r: Op)
        ensures
            is_name_op(r@, operator@, name@),
    {
        let mut operands: Vec<Operand> = Vec::new();
        operands.push(Operand::Name(String::from_str(name)));
        Op { operator: String::from_str(operator), operands }
    }

    /// A copy of this operator.
    pub fn duplicate(&self) -> (r: Op)
        ensures
            r@ == self@,
    {
        Op { operator: self.operator.clone(), operands: copy_operands(&self.operands) }
    }
}

impl Clone for Op {
    fn clone(&self) -> (r: Op)
        ensures
            r@ == self@,
    {
        self.duplicate()
    }
}

/// Appends copies of `more` to `ops`.
pub fn extend_ops(ops: &mut Vec<Op>, more: &Vec<Op>)
    ensures
        ops_view(final(ops)@) == ops_view(old(ops)@) + ops_view(more@),
{
    let ghost start = ops@;
    let mut i: usize = 0;
    while i < more.len()
        invariant
            i <= more@.len(),
            ops@.len() == start.len() + i,
            forall|j: int| 0 <= j < start.len() ==> #[trigger] ops@[j] == start[j],
            forall|j: int|
                0 <= j < i ==> #[trigger] ops@[start.len() + j]@ == more@[j]@,
        decreases more@.len() - i,
    {
        ops.push(more[i].duplicate());
        i = i + 1;
    }
    assert forall|k: int| start.len() <= k < ops@.len() implies #[trigger] ops@[k]@ == more@[k
        - start.len()]@ by {
        assert(ops@[start.len() + (k - start.len())]@ == more@[k - start.len()]@);
    }
    assert(ops_view(ops@) =~= ops_view(start) + ops_view(more@));
}

/// The lopdf object for `o`.
fn operand_object(o: &Operand) -> Object {
    match o {
        Operand::Name(s) => crate::pdf::name_object(s.as_str()),
        Operand::Text(s) => crate::pdf::text_object(s.as_str()),
        Operand::Integer(i) => crate::pdf::integer(*i),
        Operand::Number(n) => n.clone(),
    }
}

/// The lopdf operation for `op`.
pub(crate) fn lopdf_operation(op: &Op) -> lopdf::content::Operation {
    let mut operands: Vec<Object> = Vec::new();
    let mut i: usize = 0;
    while i < op.operands.len()
        decreases op.operands@.len() - i,
    {
        operands.push(operand_object(&op.operands[i]));
        i = i + 1;
    }
    crate::pdf::new_operation(op.operator.as_str(), operands)
}

/// The bytes of a content stream holding `ops`; empty where lopdf cannot
/// encode them.
pub(crate) fn encode(ops: &Vec<Op>) -> Vec<u8> {
    let mut converted: Vec<lopdf::content::Operation> = Vec::new();
    let mut i: usize = 0;
    while i < ops.len()
        decreases ops@.len() - i,
    {
        converted.push(lopdf_operation(&ops[i]));
        i = i + 1;
    }
    match crate::pdf::encode_operations(converted) {
        Some(bytes) => bytes,
        None => Vec::new(),
    }
}

} // verus!
