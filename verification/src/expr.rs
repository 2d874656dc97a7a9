//! The parsed form of a configuration predicate expression: predicates and
//! combinators stored as a postfix instruction sequence, evaluated by a
//! stack machine under a caller-chosen logic algebra.

use vstd::prelude::*;

use crate::targets;
use crate::text::str_eq;

verus! {

/// A predicate function, used to combine one or more predicates into a
/// single value.
#[derive(Debug, Clone, Copy, PartialEq, Eq, PartialOrd, Ord, Structural)]
pub enum Func {
    /// `not()` with a single configuration predicate. It is true if its
    /// predicate is false and false if its predicate is true.
    Not,
    /// `all()` with a comma separated list of configuration predicates. It
    /// is false if at least one predicate is false. If there are no
    /// predicates, it is true. The count is the number of predicates inside
    /// the `all()`.
    All(usize),
    /// `any()` with a comma separated list of configuration predicates. It
    /// is true if at least one predicate is true. If there are no
    /// predicates, it is false. The count is the number of predicates
    /// inside the `any()`.
    Any(usize),
}

/// All predicates that pertain to a target, except for `target_feature`.
#[derive(Debug, Clone, PartialEq, Eq)]
pub enum TargetPredicate {
    /// `target_arch`
    Arch(targets::Arch),
    /// `target_endian`
    Endian(targets::Endian),
    /// `target_env`
    Env(targets::Env),
    /// `target_family`; also carries the bare `unix` and `windows`
    /// predicates.
    Family(targets::Family),
    /// `target_os`
    Os(targets::Os),
    /// `target_pointer_width`
    PointerWidth(u8),
    /// `target_vendor`
    Vendor(targets::Vendor),
}

/// Mathematical form of a target predicate, over character sequences.
pub enum TargetPredV {
    Arch(Seq<char>),
    Endian(targets::Endian),
    Env(Seq<char>),
    Family(targets::Family),
    Os(Seq<char>),
    PointerWidth(u8),
    Vendor(Seq<char>),
}

impl View for TargetPredicate {
    type V = TargetPredV;

    open spec fn view(&self) -> TargetPredV {
        match self {
            TargetPredicate::Arch(a) => TargetPredV::Arch(a@),
            TargetPredicate::Endian(e) => TargetPredV::Endian(*e),
            TargetPredicate::Env(e) => TargetPredV::Env(e@),
            TargetPredicate::Family(f) => TargetPredV::Family(*f),
            TargetPredicate::Os(o) => TargetPredV::Os(o@),
            TargetPredicate::PointerWidth(w) => TargetPredV::PointerWidth(*w),
            TargetPredicate::Vendor(v) => TargetPredV::Vendor(v@),
        }
    }
}

/// What it means for a target predicate to hold of a concrete target
/// description: exact equality with the corresponding field, except that an
/// environment predicate with an empty name also holds of a target whose
/// environment is absent.
pub open spec fn spec_matches(p: TargetPredV, t: &targets::TargetInfo) -> bool {
    match p {
        TargetPredV::Arch(a) => a == t.arch@,
        TargetPredV::Endian(e) => e == t.endian,
        TargetPredV::Env(e) => match t.env {
            Some(te) => e == te@,
            None => e.len() == 0,
        },
        TargetPredV::Family(f) => t.family == Some(f),
        TargetPredV::Os(o) => match t.os {
            Some(to) => o == to@,
            None => false,
        },
        TargetPredV::PointerWidth(w) => w == t.pointer_width,
        TargetPredV::Vendor(v) => match t.vendor {
            Some(tv) => v == tv@,
            None => false,
        },
    }
}

impl TargetPredicate {
    /// Returns true if the predicate matches the specified target.
    pub fn matches(&self, target: &targets::TargetInfo) -> (r: bool)
        ensures
            r == spec_matches(self@, target),
    {
        match self {
            TargetPredicate::Arch(a) => str_eq(a.0.as_str(), target.arch.0.as_str()),
            TargetPredicate::Endian(e) => *e == target.endian,
            TargetPredicate::Env(e) => match &target.env {
                Some(te) => str_eq(e.0.as_str(), te.0.as_str()),
                None => e.0.as_str().unicode_len() == 0,
            },
            TargetPredicate::Family(f) => match &target.family {
                Some(tf) => *f == *tf,
                None => false,
            },
            TargetPredicate::Os(o) => match &target.os {
                Some(to) => str_eq(o.0.as_str(), to.0.as_str()),
                None => false,
            },
            TargetPredicate::PointerWidth(w) => *w == target.pointer_width,
            TargetPredicate::Vendor(v) => match &target.vendor {
                Some(tv) => str_eq(v.0.as_str(), tv.0.as_str()),
                None => false,
            },
        }
    }
}

/// A single predicate in a configuration expression.
#[derive(Debug, Clone, PartialEq, Eq)]
pub enum Predicate {
    /// A target predicate, with the `target_` prefix.
    Target(TargetPredicate),
    /// Whether the test harness is enabled.
    Test,
    /// Enabled when compiling without optimizations.
    DebugAssertions,
    /// Enabled for crates of the proc_macro type.
    ProcMacro,
    /// A `feature = "<name>"` predicate.
    Feature(String),
    /// A `target_feature = "<name>"` predicate; its truth cannot generally
    /// be decided from a static target description alone.
    TargetFeature(String),
    /// A generic bare predicate key that does not match one of the known
    /// options.
    Flag(String),
    /// A generic `key = "value"` predicate that does not match one of the
    /// known options.
    KeyValue { key: String, val: String },
}

/// Mathematical form of a predicate, over character sequences.
pub enum PredV {
    Target(TargetPredV),
    Test,
    DebugAssertions,
    ProcMacro,
    Feature(Seq<char>),
    TargetFeature(Seq<char>),
    Flag(Seq<char>),
    KeyValue(Seq<char>, Seq<char>),
}

impl View for Predicate {
    type V = PredV;

    open spec fn view(&self) -> PredV {
        match self {
            Predicate::Target(tp) => PredV::Target(tp@),
            Predicate::Test => PredV::Test,
            Predicate::DebugAssertions => PredV::DebugAssertions,
            Predicate::ProcMacro => PredV::ProcMacro,
            Predicate::Feature(s) => PredV::Feature(s@),
            Predicate::TargetFeature(s) => PredV::TargetFeature(s@),
            Predicate::Flag(s) => PredV::Flag(s@),
            Predicate::KeyValue { key, val } => PredV::KeyValue(key@, val@),
        }
    }
}

/// One instruction of the postfix sequence: a combinator or a predicate.
#[derive(Debug, Clone, PartialEq, Eq)]
pub enum ExprNode {
    Fn(Func),
    Predicate(Predicate),
}

/// Mathematical form of a postfix instruction.
pub enum NodeV {
    Fn(Func),
    Pred(PredV),
}

impl View for ExprNode {
    type V = NodeV;

    open spec fn view(&self) -> NodeV {
        match self {
            ExprNode::Fn(f) => NodeV::Fn(*f),
            ExprNode::Predicate(p) => NodeV::Pred(p@),
        }
    }
}

/// The views of a node vector, in order.
pub open spec fn nodes_view(v: Seq<ExprNode>) -> Seq<NodeV> {
    v.map_values(|n: ExprNode| n@)
}

/// How many operands an instruction consumes from the value stack. Every
/// instruction pushes exactly one result.
pub open spec fn node_pops(n: NodeV) -> int {
    match n {
        NodeV::Pred(_) => 0,
        NodeV::Fn(Func::Not) => 1,
        NodeV::Fn(Func::All(c)) => c as int,
        NodeV::Fn(Func::Any(c)) => c as int,
    }
}

/// Net change of the stack height over a sequence of instructions.
pub open spec fn net(nodes: Seq<NodeV>) -> int
    decreases nodes.len(),
{
    if nodes.len() == 0 {
        0
    } else {
        (1 - node_pops(nodes.first())) + net(nodes.drop_first())
    }
}

/// Starting from stack height `d`, the sequence never pops below the
/// bottom of the stack.
pub open spec fn safe(nodes: Seq<NodeV>, d: int) -> bool
    decreases nodes.len(),
{
    nodes.len() == 0 || (d >= node_pops(nodes.first()) && safe(
        nodes.drop_first(),
        d - node_pops(nodes.first()) + 1,
    ))
}

/// A well-formed postfix sequence: replaying it on an empty stack never
/// underflows and leaves exactly one value.
pub open spec fn wf_postfix(nodes: Seq<NodeV>) -> bool {
    safe(nodes, 0) && net(nodes) == 1
}

pub proof fn lemma_net_concat(a: Seq<NodeV>, b: Seq<NodeV>)
    ensures
        net(a + b) == net(a) + net(b),
    decreases a.len(),
{
    if a.len() == 0 {
        assert(a + b =~= b);
    } else {
        assert((a + b).drop_first() =~= a.drop_first() + b);
        assert((a + b).first() == a.first());
        lemma_net_concat(a.drop_first(), b);
    }
}

pub proof fn lemma_safe_concat(a: Seq<NodeV>, b: Seq<NodeV>, d: int)
    requires
        safe(a, d),
        safe(b, d + net(a)),
    ensures
        safe(a + b, d),
    decreases a.len(),
{
    if a.len() == 0 {
        assert(a + b =~= b);
    } else {
        assert((a + b).drop_first() =~= a.drop_first() + b);
        assert((a + b).first() == a.first());
        lemma_safe_concat(a.drop_first(), b, d - node_pops(a.first()) + 1);
    }
}

pub proof fn lemma_safe_weaken(a: Seq<NodeV>, d1: int, d2: int)
    requires
        safe(a, d1),
        d1 <= d2,
    ensures
        safe(a, d2),
    decreases a.len(),
{
    if a.len() > 0 {
        lemma_safe_weaken(a.drop_first(), d1 - node_pops(a.first()) + 1, d2 - node_pops(a.first()) + 1);
    }
}

/// The predicates of a postfix sequence, in order; combinators are skipped.
pub open spec fn preds_of(nodes: Seq<NodeV>) -> Seq<PredV>
    decreases nodes.len(),
{
    if nodes.len() == 0 {
        Seq::empty()
    } else {
        let rest = preds_of(nodes.drop_first());
        match nodes.first() {
            NodeV::Pred(p) => seq![p] + rest,
            NodeV::Fn(_) => rest,
        }
    }
}

pub proof fn lemma_preds_concat(a: Seq<NodeV>, b: Seq<NodeV>)
    ensures
        preds_of(a + b) == preds_of(a) + preds_of(b),
    decreases a.len(),
{
    if a.len() == 0 {
        assert(a + b =~= b);
        assert(preds_of(a) + preds_of(b) =~= preds_of(b));
    } else {
        assert((a + b).drop_first() =~= a.drop_first() + b);
        assert((a + b).first() == a.first());
        lemma_preds_concat(a.drop_first(), b);
        match a.first() {
            NodeV::Pred(p) => {
                assert((seq![p] + preds_of(a.drop_first())) + preds_of(b) =~= seq![p] + (preds_of(
                    a.drop_first(),
                ) + preds_of(b)));
            },
            NodeV::Fn(_) => {},
        }
    }
}

pub proof fn lemma_preds_single(x: NodeV)
    ensures
        preds_of(seq![x]) == (match x {
            NodeV::Pred(p) => seq![p],
            NodeV::Fn(_) => Seq::<PredV>::empty(),
        }),
{
    assert(seq![x].drop_first() =~= Seq::<NodeV>::empty());
    assert(preds_of(Seq::<NodeV>::empty()) =~= Seq::<PredV>::empty());
    match x {
        NodeV::Pred(p) => {
            assert(seq![p] + Seq::<PredV>::empty() =~= seq![p]);
        },
        NodeV::Fn(_) => {},
    }
}

pub proof fn lemma_preds_push(a: Seq<NodeV>, x: NodeV)
    ensures
        preds_of(a.push(x)) == preds_of(a) + preds_of(seq![x]),
{
    assert(a.push(x) =~= a + seq![x]);
    lemma_preds_concat(a, seq![x]);
}

/// A propositional logic used to evaluate expressions. The executable
/// operations are each pinned to a specification-level twin, so that an
/// evaluation's result can be stated exactly.
pub trait Logic: Sized {
    /// What `top` returns.
    spec fn top_spec() -> Self;

    /// What `bottom` returns.
    spec fn bottom_spec() -> Self;

    /// What `and` returns.
    spec fn and_spec(self, other: Self) -> Self;

    /// What `or` returns.
    spec fn or_spec(self, other: Self) -> Self;

    /// What `not` returns.
    spec fn not_spec(self) -> Self;

    /// The result of an `all` operation with no operands, akin to Boolean
    /// `true`.
    fn top() -> (r: Self)
        ensures
            r == Self::top_spec(),
    ;

    /// The result of an `any` operation with no operands, akin to Boolean
    /// `false`.
    fn bottom() -> (r: Self)
        ensures
            r == Self::bottom_spec(),
    ;

    /// `AND`, which corresponds to the `all` operator.
    fn and(self, other: Self) -> (r: Self)
        ensures
            r == self.and_spec(other),
    ;

    /// `OR`, which corresponds to the `any` operator.
    fn or(self, other: Self) -> (r: Self)
        ensures
            r == self.or_spec(other),
    ;

    /// `NOT`, which corresponds to the `not` operator.
    fn not(self) -> (r: Self)
        ensures
            r == self.not_spec(),
    ;
}

/// A boolean logic.
impl Logic for bool {
    open spec fn top_spec() -> bool {
        true
    }

    open spec fn bottom_spec() -> bool {
        false
    }

    open spec fn and_spec(self, other: bool) -> bool {
        self && other
    }

    open spec fn or_spec(self, other: bool) -> bool {
        self || other
    }

    open spec fn not_spec(self) -> bool {
        !self
    }

    fn top() -> (r: bool) {
        true
    }

    fn bottom() -> (r: bool) {
        false
    }

    fn and(self, other: bool) -> (r: bool) {
        self && other
    }

    fn or(self, other: bool) -> (r: bool) {
        self || other
    }

    fn not(self) -> (r: bool) {
        !self
    }
}

/// A three-valued logic with the Kleene truth tables; `None` stands for the
/// value being unknown.
impl Logic for Option<bool> {
    open spec fn top_spec() -> Option<bool> {
        Some(true)
    }

    open spec fn bottom_spec() -> Option<bool> {
        Some(false)
    }

    open spec fn and_spec(self, other: Option<bool>) -> Option<bool> {
        match (self, other) {
            (Some(false), _) => Some(false),
            (_, Some(false)) => Some(false),
            (Some(true), Some(true)) => Some(true),
            _ => None,
        }
    }

    open spec fn or_spec(self, other: Option<bool>) -> Option<bool> {
        match (self, other) {
            (Some(true), _) => Some(true),
            (_, Some(true)) => Some(true),
            (Some(false), Some(false)) => Some(false),
            _ => None,
        }
    }

    open spec fn not_spec(self) -> Option<bool> {
        match self {
            Some(v) => Some(!v),
            None => None,
        }
    }

    fn top() -> (r: Option<bool>) {
        Some(true)
    }

    fn bottom() -> (r: Option<bool>) {
        Some(false)
    }

    fn and(self, other: Option<bool>) -> (r: Option<bool>) {
        match (self, other) {
            (Some(false), _) => Some(false),
            (_, Some(false)) => Some(false),
            (Some(true), Some(true)) => Some(true),
            _ => None,
        }
    }

    fn or(self, other: Option<bool>) -> (r: Option<bool>) {
        match (self, other) {
            (Some(true), _) => Some(true),
            (_, Some(true)) => Some(true),
            (Some(false), Some(false)) => Some(false),
            _ => None,
        }
    }

    fn not(self) -> (r: Option<bool>) {
        match self {
            Some(v) => Some(!v),
            None => None,
        }
    }
}

/// Folding an `all`'s operands: the slice is in stack order, so the value
/// on top of the stack (the rightmost operand) is combined first, starting
/// from the conjunction identity.
pub open spec fn fold_all<T: Logic>(s: Seq<T>) -> T
    decreases s.len(),
{
    if s.len() == 0 {
        T::top_spec()
    } else {
        fold_all(s.drop_first()).and_spec(s.first())
    }
}

/// Folding an `any`'s operands, from the disjunction identity.
pub open spec fn fold_any<T: Logic>(s: Seq<T>) -> T
    decreases s.len(),
{
    if s.len() == 0 {
        T::bottom_spec()
    } else {
        fold_any(s.drop_first()).or_spec(s.first())
    }
}

/// The stack machine: runs the instructions left to right on `stack`,
/// consuming one value from the front of `vals` for each predicate
/// instruction, and returns the final stack together with the values left
/// unconsumed.
pub open spec fn run_nodes<T: Logic>(nodes: Seq<NodeV>, vals: Seq<T>, stack: Seq<T>) -> (Seq<T>, Seq<
    T,
>)
    decreases nodes.len(),
{
    if nodes.len() == 0 {
        (stack, vals)
    } else {
        match nodes.first() {
            NodeV::Pred(_) => run_nodes(nodes.drop_first(), vals.drop_first(), stack.push(vals.first())),
            NodeV::Fn(Func::Not) => run_nodes(
                nodes.drop_first(),
                vals,
                stack.drop_last().push(stack.last().not_spec()),
            ),
            NodeV::Fn(Func::All(c)) => run_nodes(
                nodes.drop_first(),
                vals,
                stack.take(stack.len() - c).push(fold_all(stack.skip(stack.len() - c))),
            ),
            NodeV::Fn(Func::Any(c)) => run_nodes(
                nodes.drop_first(),
                vals,
                stack.take(stack.len() - c).push(fold_any(stack.skip(stack.len() - c))),
            ),
        }
    }
}

/// The value a well-formed postfix sequence evaluates to when its
/// predicates take the values `vals`, in order.
pub open spec fn spec_eval<T: Logic>(nodes: Seq<NodeV>, vals: Seq<T>) -> T {
    run_nodes(nodes, vals, Seq::empty()).0.last()
}

/// A run that never underflows changes the stack height by exactly the
/// sequence's net growth.
pub proof fn lemma_run_height<T: Logic>(nodes: Seq<NodeV>, vals: Seq<T>, st: Seq<T>)
    requires
        safe(nodes, st.len() as int),
    ensures
        run_nodes(nodes, vals, st).0.len() == st.len() + net(nodes),
    decreases nodes.len(),
{
    if nodes.len() > 0 {
        match nodes.first() {
            NodeV::Pred(_) => {
                lemma_run_height(nodes.drop_first(), vals.drop_first(), st.push(vals.first()));
            },
            NodeV::Fn(Func::Not) => {
                lemma_run_height(
                    nodes.drop_first(),
                    vals,
                    st.drop_last().push(st.last().not_spec()),
                );
            },
            NodeV::Fn(Func::All(c)) => {
                lemma_run_height(
                    nodes.drop_first(),
                    vals,
                    st.take(st.len() - c).push(fold_all(st.skip(st.len() - c))),
                );
            },
            NodeV::Fn(Func::Any(c)) => {
                lemma_run_height(
                    nodes.drop_first(),
                    vals,
                    st.take(st.len() - c).push(fold_any(st.skip(st.len() - c))),
                );
            },
        }
    }
}

/// Running a concatenation runs the first part, then the second on the
/// stack and values the first part left.
pub proof fn lemma_run_concat<T: Logic>(a: Seq<NodeV>, b: Seq<NodeV>, vals: Seq<T>, st: Seq<T>)
    ensures
        run_nodes(a + b, vals, st) == run_nodes(
            b,
            run_nodes(a, vals, st).1,
            run_nodes(a, vals, st).0,
        ),
    decreases a.len(),
{
    if a.len() == 0 {
        assert(a + b =~= b);
    } else {
        assert((a + b).drop_first() =~= a.drop_first() + b);
        assert((a + b).first() == a.first());
        match a.first() {
            NodeV::Pred(_) => {
                lemma_run_concat(a.drop_first(), b, vals.drop_first(), st.push(vals.first()));
            },
            NodeV::Fn(Func::Not) => {
                lemma_run_concat(a.drop_first(), b, vals, st.drop_last().push(
                    st.last().not_spec(),
                ));
            },
            NodeV::Fn(Func::All(c)) => {
                lemma_run_concat(a.drop_first(), b, vals, st.take(st.len() - c).push(
                    fold_all(st.skip(st.len() - c)),
                ));
            },
            NodeV::Fn(Func::Any(c)) => {
                lemma_run_concat(a.drop_first(), b, vals, st.take(st.len() - c).push(
                    fold_any(st.skip(st.len() - c)),
                ));
            },
        }
    }
}

/// A run that never digs below its own frame leaves the stack below that
/// frame untouched.
pub proof fn lemma_run_frame<T: Logic>(nodes: Seq<NodeV>, vals: Seq<T>, st0: Seq<T>, st1: Seq<T>)
    requires
        safe(nodes, st1.len() as int),
    ensures
        run_nodes(nodes, vals, st0 + st1) == (
            st0 + run_nodes(nodes, vals, st1).0,
            run_nodes(nodes, vals, st1).1,
        ),
    decreases nodes.len(),
{
    if nodes.len() == 0 {
    } else {
        match nodes.first() {
            NodeV::Pred(_) => {
                assert((st0 + st1).push(vals.first()) =~= st0 + st1.push(vals.first()));
                lemma_run_frame(nodes.drop_first(), vals.drop_first(), st0, st1.push(vals.first()));
            },
            NodeV::Fn(Func::Not) => {
                assert((st0 + st1).last() == st1.last());
                assert((st0 + st1).drop_last() =~= st0 + st1.drop_last());
                assert((st0 + st1).drop_last().push((st0 + st1).last().not_spec()) =~= st0
                    + st1.drop_last().push(st1.last().not_spec()));
                lemma_run_frame(nodes.drop_first(), vals, st0, st1.drop_last().push(
                    st1.last().not_spec(),
                ));
            },
            NodeV::Fn(Func::All(c)) => {
                let m = (st0 + st1).len() - c;
                assert((st0 + st1).take(m) =~= st0 + st1.take(st1.len() - c));
                assert((st0 + st1).skip(m) =~= st1.skip(st1.len() - c));
                assert((st0 + st1).take(m).push(fold_all((st0 + st1).skip(m))) =~= st0
                    + st1.take(st1.len() - c).push(fold_all(st1.skip(st1.len() - c))));
                lemma_run_frame(nodes.drop_first(), vals, st0, st1.take(st1.len() - c).push(
                    fold_all(st1.skip(st1.len() - c)),
                ));
            },
            NodeV::Fn(Func::Any(c)) => {
                let m = (st0 + st1).len() - c;
                assert((st0 + st1).take(m) =~= st0 + st1.take(st1.len() - c));
                assert((st0 + st1).skip(m) =~= st1.skip(st1.len() - c));
                assert((st0 + st1).take(m).push(fold_any((st0 + st1).skip(m))) =~= st0
                    + st1.take(st1.len() - c).push(fold_any(st1.skip(st1.len() - c))));
                lemma_run_frame(nodes.drop_first(), vals, st0, st1.take(st1.len() - c).push(
                    fold_any(st1.skip(st1.len() - c)),
                ));
            },
        }
    }
}

/// An equal copy of a target predicate; the copy is rebuilt field by field
/// so that its view is known to be preserved.
fn clone_target_pred(tp: &TargetPredicate) -> (r: TargetPredicate)
    ensures
        r@ == tp@,
{
    match tp {
        TargetPredicate::Arch(a) => TargetPredicate::Arch(targets::Arch(a.0.clone())),
        TargetPredicate::Endian(e) => TargetPredicate::Endian(*e),
        TargetPredicate::Env(e) => TargetPredicate::Env(targets::Env(e.0.clone())),
        TargetPredicate::Family(f) => TargetPredicate::Family(*f),
        TargetPredicate::Os(o) => TargetPredicate::Os(targets::Os(o.0.clone())),
        TargetPredicate::PointerWidth(w) => TargetPredicate::PointerWidth(*w),
        TargetPredicate::Vendor(v) => TargetPredicate::Vendor(targets::Vendor(v.0.clone())),
    }
}

/// An equal copy of a predicate; the copy is rebuilt field by field so
/// that its view is known to be preserved.
pub fn clone_pred(p: &Predicate) -> (r: Predicate)
    ensures
        r@ == p@,
{
    match p {
        Predicate::Target(tp) => Predicate::Target(clone_target_pred(tp)),
        Predicate::Test => Predicate::Test,
        Predicate::DebugAssertions => Predicate::DebugAssertions,
        Predicate::ProcMacro => Predicate::ProcMacro,
        Predicate::Feature(s) => Predicate::Feature(s.clone()),
        Predicate::TargetFeature(s) => Predicate::TargetFeature(s.clone()),
        Predicate::Flag(s) => Predicate::Flag(s.clone()),
        Predicate::KeyValue { key, val } => Predicate::KeyValue {
            key: key.clone(),
            val: val.clone(),
        },
    }
}

/// A parsed configuration expression: the original text and the postfix
/// instruction sequence. Immutable once constructed; by construction the
/// sequence is well formed, so evaluation always leaves exactly one value
/// on the stack.
#[derive(Debug)]
pub struct Expression {
    nodes: Vec<ExprNode>,
    original: String,
}

impl Expression {
    /// The postfix instruction sequence, mathematically.
    pub closed spec fn nodes_view(&self) -> Seq<NodeV> {
        nodes_view(self.nodes@)
    }

    /// The expression text this was parsed from.
    pub closed spec fn text(&self) -> Seq<char> {
        self.original@
    }

    #[verifier::type_invariant]
    spec fn type_inv(&self) -> bool {
        wf_postfix(self.nodes_view())
    }

    /// Assembles a parsed expression from its well-formed postfix sequence.
    pub(crate) fn assemble(nodes: Vec<ExprNode>, original: String) -> (r: Expression)
        requires
            wf_postfix(nodes_view(nodes@)),
        ensures
            r.nodes_view() == nodes_view(nodes@),
            r.text() == original@,
    {
        Expression { nodes, original }
    }

    /// The original expression text.
    pub fn original_text(&self) -> (r: &str)
        ensures
            r@ == self.text(),
    {
        self.original.as_str()
    }

    /// The predicates of the expression, one per occurrence, in source
    /// order; combinators are skipped.
    pub fn predicates(&self) -> (r: Vec<Predicate>)
        ensures
            r@.map_values(|p: Predicate| p@) == preds_of(self.nodes_view()),
    {
        let ghost nv = self.nodes_view();
        let mut out: Vec<Predicate> = Vec::new();
        let n = self.nodes.len();
        let mut k: usize = 0;
        while k < n
            invariant
                n == self.nodes@.len(),
                0 <= k <= n,
                nv == self.nodes_view(),
                out@.map_values(|p: Predicate| p@) == preds_of(nv.take(k as int)),
            decreases n - k,
        {
            let ghost kk = k as int;
            let ghost pre = out@;
            proof {
                assert(nv[kk] == self.nodes@[kk]@);
                assert(nv.take(kk + 1) =~= nv.take(kk).push(nv[kk]));
                lemma_preds_push(nv.take(kk), nv[kk]);
                assert(seq![nv[kk]].drop_first() =~= Seq::<NodeV>::empty());
            }
            match &self.nodes[k] {
                ExprNode::Predicate(p) => {
                    let q = clone_pred(p);
                    out.push(q);
                    proof {
                        lemma_preds_single(nv[kk]);
                        assert(out@.map_values(|x: Predicate| x@) =~= pre.map_values(
                            |x: Predicate| x@,
                        ).push(q@));
                        assert(preds_of(nv.take(kk)) + seq![p@] =~= preds_of(nv.take(kk)).push(p@));
                        assert(out@.map_values(|x: Predicate| x@) =~= preds_of(nv.take(kk + 1)));
                    }
                },
                ExprNode::Fn(_) => {
                    proof {
                        lemma_preds_single(nv[kk]);
                        assert(preds_of(nv.take(kk)) + Seq::<PredV>::empty() =~= preds_of(
                            nv.take(kk),
                        ));
                    }
                },
            }
            k = k + 1;
        }
        proof {
            assert(nv.take(n as int) =~= nv);
        }
        out
    }

    /// Evaluates the expression, using the provided function to determine
    /// the value of each predicate; the values are then combined according
    /// to the `not()`, `all()` and `any()` combinators of the expression.
    ///
    /// The function is applied once per predicate occurrence, in source
    /// order, and the result is exactly the run of the postfix stack
    /// machine over the values it returned.
    #[verifier::rlimit(50)]
    pub fn eval<EP, T>(&self, eval_predicate: EP) -> (r: T) where
        EP: Fn(&Predicate) -> T,
        T: Logic,

        requires
            forall|p: Predicate| #[trigger] call_requires(eval_predicate, (&p,)),
        ensures
            exists|ps: Seq<Predicate>, vals: Seq<T>|
                #![trigger ps.len(), vals.len()]
                {
                    &&& ps.len() == preds_of(self.nodes_view()).len()
                    &&& vals.len() == ps.len()
                    &&& (forall|m: int|
                        0 <= m < ps.len() ==> (#[trigger] ps[m])@ == preds_of(self.nodes_view())[m]
                            && call_ensures(eval_predicate, (&ps[m],), vals[m]))
                    &&& run_nodes(self.nodes_view(), vals, Seq::empty()).0.len() == 1
                    &&& run_nodes(self.nodes_view(), vals, Seq::empty()).1.len() == 0
                    &&& r == spec_eval(self.nodes_view(), vals)
                },
    {
        proof {
            use_type_invariant(self);
        }
        let ghost nv = self.nodes_view();
        let mut stack: Vec<T> = Vec::new();
        let ghost mut ps: Seq<Predicate> = Seq::empty();
        let ghost mut vals: Seq<T> = Seq::empty();
        let n = self.nodes.len();
        let mut k: usize = 0;
        proof {
            assert(nv.skip(0) =~= nv);
            assert forall|suffix: Seq<T>|
                run_nodes(nv, vals + suffix, Seq::empty()) == #[trigger] run_nodes(
                    nv.skip(0),
                    suffix,
                    stack@,
                ) by {
                assert(vals + suffix =~= suffix);
            }
        }
        while k < n
            invariant
                n == self.nodes@.len(),
                0 <= k <= n,
                nv == self.nodes_view(),
                safe(nv.skip(k as int), stack@.len() as int),
                stack@.len() + net(nv.skip(k as int)) == 1,
                ps.len() == preds_of(nv.take(k as int)).len(),
                vals.len() == ps.len(),
                forall|m: int|
                    0 <= m < ps.len() ==> (#[trigger] ps[m])@ == preds_of(nv.take(k as int))[m]
                        && call_ensures(eval_predicate, (&ps[m],), vals[m]),
                forall|suffix: Seq<T>|
                    run_nodes(nv, vals + suffix, Seq::empty()) == #[trigger] run_nodes(
                        nv.skip(k as int),
                        suffix,
                        stack@,
                    ),
                forall|p: Predicate| #[trigger] call_requires(eval_predicate, (&p,)),
            decreases n - k,
        {
            let ghost kk = k as int;
            let ghost pre_stack = stack@;
            let ghost pre_vals = vals;
            let ghost pre_ps = ps;
            proof {
                assert(nv.skip(kk).len() > 0);
                assert(nv.skip(kk).first() == nv[kk]);
                assert(nv.skip(kk).drop_first() =~= nv.skip(kk + 1));
                assert(nv[kk] == self.nodes@[kk]@);
                assert(nv.take(kk + 1) =~= nv.take(kk).push(nv[kk]));
                lemma_preds_push(nv.take(kk), nv[kk]);
                assert(seq![nv[kk]].drop_first() =~= Seq::<NodeV>::empty());
            }
            match &self.nodes[k] {
                ExprNode::Predicate(p) => {
                    proof {
                        assert(call_requires(eval_predicate, (p,)));
                    }
                    let v = eval_predicate(p);
                    stack.push(v);
                    proof {
                        ps = ps.push(*p);
                        vals = vals.push(v);
                        lemma_preds_single(nv[kk]);
                        assert(preds_of(nv.take(kk)) + seq![p@] =~= preds_of(nv.take(kk)).push(
                            p@,
                        ));
                        assert(preds_of(nv.take(kk + 1)) =~= preds_of(nv.take(kk)).push(p@));
                        assert forall|suffix: Seq<T>|
                            run_nodes(nv, vals + suffix, Seq::empty()) == #[trigger] run_nodes(
                                nv.skip(kk + 1),
                                suffix,
                                stack@,
                            ) by {
                            let ext = seq![v] + suffix;
                            assert(pre_vals + ext =~= vals + suffix);
                            assert(run_nodes(nv, pre_vals + ext, Seq::empty()) == run_nodes(
                                nv.skip(kk),
                                ext,
                                pre_stack,
                            ));
                            assert(ext.first() == v);
                            assert(ext.drop_first() =~= suffix);
                            assert(run_nodes(nv.skip(kk), ext, pre_stack) == run_nodes(
                                nv.skip(kk + 1),
                                suffix,
                                pre_stack.push(v),
                            ));
                        }
                    }
                },
                ExprNode::Fn(func) => {
                    let count: usize = match func {
                        Func::Not => 1,
                        Func::All(c) => *c,
                        Func::Any(c) => *c,
                    };
                    proof {
                        assert(node_pops(nv[kk]) == count as int);
                        assert(pre_stack.len() >= count as int);
                    }
                    let ghost region = pre_stack.skip(pre_stack.len() - count as int);
                    match func {
                        Func::Not => {
                            let v = stack.pop().unwrap();
                            let v2 = v.not();
                            stack.push(v2);
                            proof {
                                assert(stack@ =~= pre_stack.drop_last().push(
                                    pre_stack.last().not_spec(),
                                ));
                            }
                        },
                        Func::All(_) => {
                            let mut acc = T::top();
                            let mut done: usize = 0;
                            while done < count
                                invariant
                                    0 <= done <= count,
                                    count as int <= pre_stack.len(),
                                    region == pre_stack.skip(pre_stack.len() - count as int),
                                    stack@ == pre_stack.take(pre_stack.len() - done as int),
                                    acc == fold_all(region.skip(count as int - done as int)),
                                decreases count - done,
                            {
                                proof {
                                    let cd = count as int - done as int;
                                    assert(region.skip(cd - 1).first() == region[cd - 1]);
                                    assert(region.skip(cd - 1).drop_first() =~= region.skip(cd));
                                    assert(region[cd - 1] == pre_stack[pre_stack.len() - 1
                                        - done as int]);
                                    assert(stack@.last() == pre_stack[pre_stack.len() - 1
                                        - done as int]);
                                    assert(stack@.drop_last() =~= pre_stack.take(
                                        pre_stack.len() - done as int - 1,
                                    ));
                                }
                                let v = stack.pop().unwrap();
                                acc = acc.and(v);
                                done = done + 1;
                            }
                            proof {
                                assert(region.skip(0) =~= region);
                            }
                            stack.push(acc);
                            proof {
                                assert(stack@ =~= pre_stack.take(
                                    pre_stack.len() - count as int,
                                ).push(fold_all(region)));
                            }
                        },
                        Func::Any(_) => {
                            let mut acc = T::bottom();
                            let mut done: usize = 0;
                            while done < count
                                invariant
                                    0 <= done <= count,
                                    count as int <= pre_stack.len(),
                                    region == pre_stack.skip(pre_stack.len() - count as int),
                                    stack@ == pre_stack.take(pre_stack.len() - done as int),
                                    acc == fold_any(region.skip(count as int - done as int)),
                                decreases count - done,
                            {
                                proof {
                                    let cd = count as int - done as int;
                                    assert(region.skip(cd - 1).first() == region[cd - 1]);
                                    assert(region.skip(cd - 1).drop_first() =~= region.skip(cd));
                                    assert(region[cd - 1] == pre_stack[pre_stack.len() - 1
                                        - done as int]);
                                    assert(stack@.last() == pre_stack[pre_stack.len() - 1
                                        - done as int]);
                                    assert(stack@.drop_last() =~= pre_stack.take(
                                        pre_stack.len() - done as int - 1,
                                    ));
                                }
                                let v = stack.pop().unwrap();
                                acc = acc.or(v);
                                done = done + 1;
                            }
                            proof {
                                assert(region.skip(0) =~= region);
                            }
                            stack.push(acc);
                            proof {
                                assert(stack@ =~= pre_stack.take(
                                    pre_stack.len() - count as int,
                                ).push(fold_any(region)));
                            }
                        },
                    }
                    proof {
                        lemma_preds_single(nv[kk]);
                        assert(preds_of(nv.take(kk)) + Seq::<PredV>::empty() =~= preds_of(
                            nv.take(kk),
                        ));
                        assert(preds_of(nv.take(kk + 1)) =~= preds_of(nv.take(kk)));
                        assert forall|suffix: Seq<T>|
                            run_nodes(nv, vals + suffix, Seq::empty()) == #[trigger] run_nodes(
                                nv.skip(kk + 1),
                                suffix,
                                stack@,
                            ) by {
                            assert(run_nodes(nv, pre_vals + suffix, Seq::empty()) == run_nodes(
                                nv.skip(kk),
                                suffix,
                                pre_stack,
                            ));
                            assert(run_nodes(nv.skip(kk), suffix, pre_stack) == run_nodes(
                                nv.skip(kk + 1),
                                suffix,
                                stack@,
                            ));
                        }
                    }
                },
            }
            k = k + 1;
        }
        proof {
            assert(nv.skip(n as int) =~= Seq::<NodeV>::empty());
            assert(net(nv.skip(n as int)) == 0);
            assert(stack@.len() == 1);
            assert(vals + Seq::<T>::empty() =~= vals);
            assert(run_nodes(nv, vals, Seq::empty()) == run_nodes(
                nv.skip(n as int),
                Seq::empty(),
                stack@,
            ));
            assert(nv.take(n as int) =~= nv);
        }
        let ghost final_stack = stack@;
        let r = stack.pop().unwrap();
        proof {
            assert(run_nodes(nv, vals, Seq::empty()).0 == final_stack);
            assert(run_nodes(nv, vals, Seq::empty()).1 == Seq::<T>::empty());
            assert(r == spec_eval(nv, vals));
            assert(ps.len() == preds_of(nv).len());
            assert(forall|m: int|
                0 <= m < ps.len() ==> (#[trigger] ps[m])@ == preds_of(nv)[m] && call_ensures(
                    eval_predicate,
                    (&ps[m],),
                    vals[m],
                ));
        }
        r
    }
}

} // verus!
