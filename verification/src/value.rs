//! The value model: tagged values, the cells that hold them, the handles by
//! which cells are shared, and the runtime that owns the cells.

use crate::location::{Location, Place};
use vstd::prelude::*;
use vstd::std_specs::convert::FromSpecImpl;

verus! {

/// The built-in operations.
#[derive(Debug, Clone, Copy, PartialEq, Eq, Structural)]
pub enum IntrinsicOp {
    Add,
    Subtract,
    Print,
    Multiply,
}

/// A handle to one value cell of a `Runtime`. Handles to the same cell are
/// aliases: a write through one is seen through all the others.
#[derive(Debug)]
pub struct Var {
    id: usize,
}

impl View for Var {
    type V = nat;

    /// The index of the cell that the handle points to.
    closed spec fn view(&self) -> nat {
        self.id as nat
    }
}

/// A call that has not been evaluated: an operator cell, the operand cells in
/// order, the place it was written at, and a slot for its last result.
#[derive(Debug)]
pub struct Statement {
    pub args: Vec<Var>,
    pub op: Var,
    pub res: Option<Var>,
    pub loc: Location,
}

/// What a `Statement` stands for.
pub struct Node {
    pub op: Var,
    pub args: Seq<Var>,
    pub cache: Option<Var>,
    pub loc: Place,
}

impl View for Statement {
    type V = Node;

    open spec fn view(&self) -> Node {
        Node { op: self.op, args: self.args@, cache: self.res, loc: self.loc@ }
    }
}

/// A tagged value. A floating-point number is held as the literal that was
/// written for it.
#[derive(Debug)]
pub enum LispType {
    Integer(isize),
    Str(String),
    Func(IntrinsicOp),
    Statement(Statement),
    List(Vec<Var>),
    Floating(String),
    Nil,
}

/// What a `LispType` stands for.
pub enum Value {
    Integer(int),
    Str(Seq<char>),
    Func(IntrinsicOp),
    Call(Node),
    List(Seq<Var>),
    Floating(Seq<char>),
    Nil,
}

impl View for LispType {
    type V = Value;

    open spec fn view(&self) -> Value {
        match self {
            LispType::Integer(i) => Value::Integer(*i as int),
            LispType::Str(s) => Value::Str(s@),
            LispType::Func(f) => Value::Func(*f),
            LispType::Statement(s) => Value::Call(s@),
            LispType::List(l) => Value::List(l@),
            LispType::Floating(t) => Value::Floating(t@),
            LispType::Nil => Value::Nil,
        }
    }
}

impl FromSpecImpl<isize> for LispType {
    open spec fn obeys_from_spec() -> bool {
        true
    }

    open spec fn from_spec(i: isize) -> LispType {
        LispType::Integer(i)
    }
}

impl From<isize> for LispType {
    fn from(i: isize) -> (v: LispType) {
        LispType::Integer(i)
    }
}

impl FromSpecImpl<String> for LispType {
    open spec fn obeys_from_spec() -> bool {
        true
    }

    open spec fn from_spec(s: String) -> LispType {
        LispType::Str(s)
    }
}

impl From<String> for LispType {
    fn from(s: String) -> (v: LispType) {
        LispType::Str(s)
    }
}

impl<'a> FromSpecImpl<&'a str> for LispType {
    open spec fn obeys_from_spec() -> bool {
        false
    }

    open spec fn from_spec(s: &'a str) -> LispType {
        arbitrary()
    }
}

impl<'a> From<&'a str> for LispType {
    fn from(s: &'a str) -> (v: LispType)
        ensures
            v@ == Value::Str(s@),
    {
        LispType::Str(s.to_owned())
    }
}

impl FromSpecImpl<IntrinsicOp> for LispType {
    open spec fn obeys_from_spec() -> bool {
        true
    }

    open spec fn from_spec(op: IntrinsicOp) -> LispType {
        LispType::Func(op)
    }
}

impl From<IntrinsicOp> for LispType {
    fn from(op: IntrinsicOp) -> (v: LispType) {
        LispType::Func(op)
    }
}

impl FromSpecImpl<Statement> for LispType {
    open spec fn obeys_from_spec() -> bool {
        true
    }

    open spec fn from_spec(s: Statement) -> LispType {
        LispType::Statement(s)
    }
}

impl From<Statement> for LispType {
    fn from(s: Statement) -> (v: LispType) {
        LispType::Statement(s)
    }
}

impl Value {
    /// Whether the value may be duplicated: functions and calls may not, only
    /// the cell that holds one may be aliased.
    pub open spec fn duplicable(self) -> bool {
        !(self is Func) && !(self is Call)
    }

    /// Whether the value is one that a literal writes.
    pub open spec fn is_literal(self) -> bool {
        self is Integer || self is Str || self is Floating || self is Nil
    }

    /// The value with the result slot of a call emptied.
    pub open spec fn uncached(self) -> Value {
        match self {
            Value::Call(n) => Value::Call(Node { cache: None, ..n }),
            v => v,
        }
    }
}

impl Statement {
    /// Whether the call can be run on `rt`: its operator and operands are
    /// cells of `rt`, the operator holds a function, and so is its last
    /// result, if it has one.
    pub fn fits(&self, rt: &Runtime) -> (b: bool)
        ensures
            b == node_ok(rt.cells(), self@, rt.cells().len() as int),
    {
        let n = rt.len();
        self.op.is_in(rt) && self.op.get(rt).is_func() && Var::all_below(&self.args, n) && match &self.res {
            Some(c) => c.is_in(rt),
            None => true,
        }
    }
}

impl LispType {
    /// A second value equal to this one. A list is duplicated as handles to
    /// the same cells. Functions and calls cannot be duplicated.
    pub fn duplicate(&self) -> (copy: LispType)
        requires
            self@.duplicable(),
        ensures
            copy@ == self@,
    {
        match self {
            LispType::Integer(i) => LispType::Integer(*i),
            LispType::Str(s) => LispType::Str(s.clone()),
            LispType::List(l) => LispType::List(Var::aliases(l)),
            LispType::Floating(t) => LispType::Floating(t.clone()),
            _ => LispType::Nil,
        }
    }

    /// The operation that the value, a function, is.
    pub fn unwrap_func(&self) -> (op: IntrinsicOp)
        requires
            self@ is Func,
        ensures
            self@ == Value::Func(op),
    {
        match self {
            LispType::Func(f) => *f,
            _ => IntrinsicOp::Print,
        }
    }

    /// Whether the value refers to cells of `rt` only.
    pub fn fits(&self, rt: &Runtime) -> (b: bool)
        ensures
            b == match self@ {
                Value::Call(n) => n.op@ < rt.cells().len() && ceiling(n.args) <= rt.cells().len()
                    && (n.cache matches Some(c) ==> c@ < rt.cells().len()),
                Value::List(items) => ceiling(items) <= rt.cells().len(),
                _ => true,
            },
    {
        let n = rt.len();
        match self {
            LispType::Statement(s) => s.op.id < n && Var::all_below(&s.args, n) && match &s.res {
                Some(c) => c.id < n,
                None => true,
            },
            LispType::List(items) => Var::all_below(items, n),
            _ => true,
        }
    }

    /// Whether the value is a function.
    pub fn is_func(&self) -> (b: bool)
        ensures
            b == (self@ is Func),
    {
        match self {
            LispType::Func(_) => true,
            _ => false,
        }
    }

    /// Whether the value is a call.
    pub fn is_stmt(&self) -> (b: bool)
        ensures
            b == (self@ is Call),
    {
        match self {
            LispType::Statement(_) => true,
            _ => false,
        }
    }
}

/// The least number that is above the index of every cell that a handle in
/// `s` points to.
pub open spec fn ceiling(s: Seq<Var>) -> nat
    decreases s.len(),
{
    if s.len() == 0 {
        0
    } else {
        let rest = ceiling(s.drop_last());
        if s.last()@ < rest {
            rest
        } else {
            s.last()@ + 1
        }
    }
}

/// Every handle in `s` points below `ceiling(s)`.
pub proof fn lemma_below_ceiling(s: Seq<Var>, j: int)
    requires
        0 <= j < s.len(),
    ensures
        s[j]@ < ceiling(s),
    decreases s.len(),
{
    if j < s.len() - 1 {
        lemma_below_ceiling(s.drop_last(), j);
    }
}

/// `ceiling(s)` is at most `bound` if every handle in `s` points below `bound`.
pub proof fn lemma_ceiling_least(s: Seq<Var>, bound: nat)
    requires
        forall|j: int| 0 <= j < s.len() ==> (#[trigger] s[j])@ < bound,
    ensures
        ceiling(s) <= bound,
    decreases s.len(),
{
    if s.len() > 0 {
        lemma_ceiling_least(s.drop_last(), bound);
    }
}

/// Whether the call `n` can stand in cell `bound` of `h`, or outside the cells
/// where `bound` is their number: its operator and operands lie below
/// `bound`, the operator holds a function, and a cached result is a cell of `h`.
pub open spec fn node_ok(h: Seq<Value>, n: Node, bound: int) -> bool {
    &&& n.op@ < bound <= h.len()
    &&& h[n.op@ as int] is Func
    &&& ceiling(n.args) <= bound
    &&& n.cache matches Some(c) ==> c@ < h.len()
}

/// Whether cell `k` of `h` refers to earlier cells only.
pub open spec fn cell_ok(h: Seq<Value>, k: int) -> bool {
    match h[k] {
        Value::Call(n) => node_ok(h, n, k),
        Value::List(items) => ceiling(items) <= k,
        _ => true,
    }
}

/// Whether each cell of `h` refers to earlier cells only, so that following
/// handles always ends.
pub open spec fn well_formed(h: Seq<Value>) -> bool {
    forall|k: int| 0 <= k < h.len() ==> #[trigger] cell_ok(h, k)
}

/// Whether `h2` is `h1` with cells added at the end and result slots
/// rewritten, and nothing else changed.
pub open spec fn extends(h1: Seq<Value>, h2: Seq<Value>) -> bool {
    &&& h1.len() <= h2.len()
    &&& forall|k: int| 0 <= k < h1.len() ==> (#[trigger] h1[k]).uncached() == h2[k].uncached()
}

/// `extends` holds of a sequence and itself.
pub proof fn lemma_extends_refl(h: Seq<Value>)
    ensures
        extends(h, h),
{
}

/// `extends` carries over two steps.
pub proof fn lemma_extends_trans(h1: Seq<Value>, h2: Seq<Value>, h3: Seq<Value>)
    requires
        extends(h1, h2),
        extends(h2, h3),
    ensures
        extends(h1, h3),
{
    assert forall|k: int| 0 <= k < h1.len() implies (#[trigger] h1[k]).uncached()
        == h3[k].uncached() by {
        assert(h1[k].uncached() == h2[k].uncached());
        assert(h2[k].uncached() == h3[k].uncached());
    }
}

/// A value that is no call may be added at the end, if it refers to cells
/// of `h` only.
pub proof fn lemma_push_value(h: Seq<Value>, v: Value)
    requires
        well_formed(h),
        !(v is Call),
        v matches Value::List(items) ==> ceiling(items) <= h.len(),
    ensures
        well_formed(h.push(v)),
        extends(h, h.push(v)),
{
    let h2 = h.push(v);
    assert forall|k: int| 0 <= k < h2.len() implies #[trigger] cell_ok(h2, k) by {
        if k < h.len() {
            assert(cell_ok(h, k));
        }
    }
}

/// A call whose operator and operands are cells of `h` may be added at the
/// end.
pub proof fn lemma_push_call(h: Seq<Value>, n: Node)
    requires
        well_formed(h),
        node_ok(h, n, h.len() as int),
    ensures
        well_formed(h.push(Value::Call(n))),
        extends(h, h.push(Value::Call(n))),
{
    let h2 = h.push(Value::Call(n));
    assert forall|k: int| 0 <= k < h2.len() implies #[trigger] cell_ok(h2, k) by {
        if k < h.len() {
            assert(cell_ok(h, k));
        }
    }
}

/// The result slot of a call may be set to any cell.
pub proof fn lemma_set_cache(h: Seq<Value>, id: int, c: Var)
    requires
        well_formed(h),
        0 <= id < h.len(),
        h[id] is Call,
        c@ < h.len(),
    ensures
        well_formed(h.update(id, Value::Call(Node { cache: Some(c), ..h[id]->Call_0 }))),
        extends(h, h.update(id, Value::Call(Node { cache: Some(c), ..h[id]->Call_0 }))),
{
    let h2 = h.update(id, Value::Call(Node { cache: Some(c), ..h[id]->Call_0 }));
    assert forall|k: int| 0 <= k < h2.len() implies #[trigger] cell_ok(h2, k) by {
        assert(cell_ok(h, k));
        assert(cell_ok(h, id));
    }
}

/// The cells of a program and the lines it has written.
#[derive(Debug)]
pub struct Runtime {
    cells: Vec<LispType>,
    output: Vec<String>,
}

impl Runtime {
    /// The values in the cells, by index.
    pub closed spec fn cells(&self) -> Seq<Value> {
        Seq::new(self.cells@.len(), |i: int| self.cells@[i]@)
    }

    /// The lines written so far, oldest first.
    pub closed spec fn lines(&self) -> Seq<Seq<char>> {
        Seq::new(self.output@.len(), |i: int| self.output@[i]@)
    }

    /// Whether the cells are well formed.
    pub open spec fn wf(&self) -> bool {
        well_formed(self.cells())
    }

    /// A runtime with no cells and no output.
    pub fn new() -> (rt: Runtime)
        ensures
            rt.cells() == Seq::<Value>::empty(),
            rt.lines() == Seq::<Seq<char>>::empty(),
            rt.wf(),
    {
        Runtime { cells: Vec::new(), output: Vec::new() }
    }

    /// Whether the cells are well formed.
    pub fn is_well_formed(&self) -> (b: bool)
        ensures
            b == self.wf(),
    {
        let ghost h = self.cells();
        let n = self.cells.len();
        let mut k: usize = 0;
        while k < n
            invariant
                h == self.cells(),
                n == self.cells@.len(),
                k <= n,
                forall|j: int| 0 <= j < k ==> #[trigger] cell_ok(h, j),
            decreases n - k,
        {
            let ok = match &self.cells[k] {
                LispType::Statement(s) => {
                    s.op.id < k && self.cells[s.op.id].is_func() && Var::all_below(&s.args, k)
                        && match &s.res {
                        Some(c) => c.id < n,
                        None => true,
                    }
                },
                LispType::List(items) => Var::all_below(items, k),
                _ => true,
            };
            assert(ok == cell_ok(h, k as int));
            if !ok {
                return false;
            }
            k += 1;
        }
        true
    }

    /// The number of cells.
    pub fn len(&self) -> (n: usize)
        ensures
            n == self.cells().len(),
    {
        self.cells.len()
    }

    /// The lines written so far, oldest first.
    pub fn output(&self) -> (out: &Vec<String>)
        ensures
            out@.len() == self.lines().len(),
            forall|i: int| 0 <= i < out@.len() ==> (#[trigger] out@[i])@ == self.lines()[i],
    {
        &self.output
    }

    /// Writes one line.
    pub fn emit(&mut self, line: String)
        ensures
            final(self).lines() == old(self).lines().push(line@),
            final(self).cells() == old(self).cells(),
    {
        self.output.push(line);
        assert(self.lines() =~= old(self).lines().push(line@));
        assert(self.cells() =~= old(self).cells());
    }
}

impl Var {
    /// The handle to cell `id`.
    pub closed spec fn at(id: nat) -> Var {
        Var { id: id as usize }
    }

    /// `at(id)` points to cell `id`, as far as the machine can count.
    pub proof fn lemma_at(id: nat)
        requires
            id <= usize::MAX,
        ensures
            Var::at(id)@ == id,
    {
    }

    /// Handles to the same cell are equal.
    pub proof fn lemma_same(a: Var, b: Var)
        requires
            a@ == b@,
        ensures
            a == b,
    {
    }

    /// A handle points to a cell that the machine can count to.
    pub proof fn lemma_bounded(v: Var)
        ensures
            v@ <= usize::MAX,
    {
    }

    /// A handle is the handle to the cell that it points to.
    pub proof fn lemma_at_view(v: Var)
        ensures
            Var::at(v@) == v,
    {
    }

    /// A fresh cell holding `value`.
    pub fn new(rt: &mut Runtime, value: LispType) -> (v: Var)
        ensures
            v == Var::at(old(rt).cells().len()),
            v@ == old(rt).cells().len(),
            final(rt).cells() == old(rt).cells().push(value@),
            final(rt).lines() == old(rt).lines(),
    {
        let id = rt.cells.len();
        rt.cells.push(value);
        assert(rt.cells() =~= old(rt).cells().push(value@));
        assert(rt.lines() =~= old(rt).lines());
        Var { id }
    }

    /// Another handle to the same cell.
    pub fn new_ref(&self) -> (v: Var)
        ensures
            v == *self,
    {
        Var { id: self.id }
    }

    /// New handles to the cells of `handles`, in the same order.
    pub fn aliases(handles: &Vec<Var>) -> (copies: Vec<Var>)
        ensures
            copies@ == handles@,
    {
        let mut copies: Vec<Var> = Vec::new();
        let mut i: usize = 0;
        while i < handles.len()
            invariant
                i <= handles.len(),
                copies@ == handles@.take(i as int),
            decreases handles.len() - i,
        {
            copies.push(handles[i].new_ref());
            i += 1;
            assert(handles@.take(i as int) == handles@.take(i - 1).push(handles@[i - 1]));
        }
        assert(handles@.take(handles.len() as int) == handles@);
        copies
    }

    /// Whether every handle in `handles` points below `bound`.
    pub fn all_below(handles: &Vec<Var>, bound: usize) -> (b: bool)
        ensures
            b == (ceiling(handles@) <= bound),
    {
        let mut i: usize = 0;
        while i < handles.len()
            invariant
                i <= handles.len(),
                forall|j: int| 0 <= j < i ==> (#[trigger] handles@[j])@ < bound,
            decreases handles.len() - i,
        {
            if handles[i].id >= bound {
                proof {
                    lemma_below_ceiling(handles@, i as int);
                }
                return false;
            }
            i += 1;
        }
        proof {
            lemma_ceiling_least(handles@, bound as nat);
        }
        true
    }

    /// Whether the handle points to a cell of `rt`.
    pub fn is_in(&self, rt: &Runtime) -> (b: bool)
        ensures
            b == (self@ < rt.cells().len()),
    {
        self.id < rt.cells.len()
    }

    /// Whether both handles point to one cell.
    pub fn same_cell(&self, other: &Var) -> (b: bool)
        ensures
            b == (self@ == other@),
            b == (*self == *other),
    {
        self.id == other.id
    }

    /// The value in the cell.
    pub fn get<'a>(&self, rt: &'a Runtime) -> (value: &'a LispType)
        requires
            self@ < rt.cells().len(),
        ensures
            value@ == rt.cells()[self@ as int],
    {
        &rt.cells[self.id]
    }

    /// Replaces the value in the cell. Every alias of the handle sees the new
    /// value.
    pub fn set(&self, rt: &mut Runtime, value: LispType)
        requires
            self@ < old(rt).cells().len(),
        ensures
            final(rt).cells() == old(rt).cells().update(self@ as int, value@),
            final(rt).lines() == old(rt).lines(),
    {
        rt.cells.set(self.id, value);
        assert(rt.cells() =~= old(rt).cells().update(self@ as int, value@));
        assert(rt.lines() =~= old(rt).lines());
    }
}

} // verus!
