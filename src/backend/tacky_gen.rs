use vstd::prelude::*;
use vstd::string::*;

use crate::ast::checked;
use crate::common::{
    lemma_underscored_number, numbered, numbered_name, underscored, underscored_name, UniqueIdGenerator,
};
use crate::ir::tacky;

verus! {

// ---------------------------------------------------------------------------
// A size measure of the checked tree: lowering a node mints at most one
// temporary and two labels.
// ---------------------------------------------------------------------------

pub open spec fn size_expr(e: checked::Expression) -> nat
    decreases e,
{
    1 + match e {
        checked::Expression::Constant(_) => 0,
        checked::Expression::Var(_) => 0,
        checked::Expression::Unary { expression, .. } => size_expr(*expression),
        checked::Expression::Binary { left, right, .. } => size_expr(*left) + size_expr(*right),
        checked::Expression::Assign { left, right } => size_expr(*left) + size_expr(*right),
        checked::Expression::Conditional { condition, left, right } => size_expr(*condition)
            + size_expr(*left) + size_expr(*right),
        checked::Expression::FunctionCall { args, .. } => size_args(args@),
    }
}

pub open spec fn size_args(s: Seq<checked::Expression>) -> nat
    decreases s,
{
    if s.len() == 0 {
        0
    } else {
        size_args(s.drop_last()) + size_expr(s.last())
    }
}

pub open spec fn size_opt(e: Option<checked::Expression>) -> nat {
    match e {
        Some(x) => size_expr(x),
        None => 0,
    }
}

pub open spec fn size_stmt(s: checked::Statement) -> nat
    decreases s,
{
    1 + match s {
        checked::Statement::Return(e) => size_expr(e),
        checked::Statement::Expression(e) => size_expr(e),
        checked::Statement::If { condition, then_stat, else_stat } => size_expr(condition)
            + size_stmt(*then_stat) + match else_stat {
            Some(x) => size_stmt(*x),
            None => 0,
        },
        checked::Statement::Compound(b) => size_items(b.blocks@),
        checked::Statement::While { condition, body, .. } => size_expr(condition) + size_stmt(*body),
        checked::Statement::DoWhile { body, condition, .. } => size_expr(condition) + size_stmt(
            *body,
        ),
        checked::Statement::For { init, condition, post, body, .. } => size_opt(condition)
            + size_opt(post) + size_stmt(*body) + match init {
            Some(i) => size_item(*i),
            None => 0,
        },
        _ => 0,
    }
}

pub open spec fn size_item(i: checked::BlockItem) -> nat
    decreases i,
{
    match i {
        checked::BlockItem::S(s) => size_stmt(s),
        checked::BlockItem::D(checked::Declaration::Variable { init: Some(e), .. }) => size_expr(e),
        checked::BlockItem::D(_) => 0,
    }
}

pub open spec fn size_items(s: Seq<checked::BlockItem>) -> nat
    decreases s,
{
    if s.len() == 0 {
        0
    } else {
        size_items(s.drop_last()) + size_item(s.last())
    }
}

pub open spec fn size_decls(s: Seq<checked::Declaration>) -> nat
    decreases s,
{
    if s.len() == 0 {
        0
    } else {
        size_decls(s.drop_last()) + match s.last() {
            checked::Declaration::Function { body: Some(b), .. } => size_items(b.blocks@),
            _ => 0,
        }
    }
}

/// Every assignment in `e` writes to a plain variable.
pub open spec fn assigns_vars(e: checked::Expression) -> bool
    decreases e,
{
    match e {
        checked::Expression::Constant(_) => true,
        checked::Expression::Var(_) => true,
        checked::Expression::Unary { expression, .. } => assigns_vars(*expression),
        checked::Expression::Binary { left, right, .. } => assigns_vars(*left) && assigns_vars(*right),
        checked::Expression::Assign { left, right } => (*left) is Var && assigns_vars(*right),
        checked::Expression::Conditional { condition, left, right } => assigns_vars(*condition)
            && assigns_vars(*left) && assigns_vars(*right),
        checked::Expression::FunctionCall { args, .. } => assigns_vars_args(args@),
    }
}

pub open spec fn assigns_vars_args(s: Seq<checked::Expression>) -> bool
    decreases s,
{
    s.len() > 0 ==> assigns_vars_args(s.drop_last()) && assigns_vars(s.last())
}

pub open spec fn assigns_vars_opt(e: Option<checked::Expression>) -> bool {
    match e {
        Some(x) => assigns_vars(x),
        None => true,
    }
}

pub open spec fn assigns_vars_stmt(s: checked::Statement) -> bool
    decreases s,
{
    match s {
        checked::Statement::Return(e) => assigns_vars(e),
        checked::Statement::Expression(e) => assigns_vars(e),
        checked::Statement::If { condition, then_stat, else_stat } => assigns_vars(condition)
            && assigns_vars_stmt(*then_stat) && match else_stat {
            Some(x) => assigns_vars_stmt(*x),
            None => true,
        },
        checked::Statement::Compound(b) => assigns_vars_items(b.blocks@),
        checked::Statement::While { condition, body, .. } => assigns_vars(condition)
            && assigns_vars_stmt(*body),
        checked::Statement::DoWhile { body, condition, .. } => assigns_vars(condition)
            && assigns_vars_stmt(*body),
        checked::Statement::For { init, condition, post, body, .. } => {
            &&& assigns_vars_opt(condition)
            &&& assigns_vars_opt(post)
            &&& assigns_vars_stmt(*body)
            &&& match init {
                Some(i) => assigns_vars_item(*i),
                None => true,
            }
        },
        _ => true,
    }
}

pub open spec fn assigns_vars_item(i: checked::BlockItem) -> bool
    decreases i,
{
    match i {
        checked::BlockItem::S(s) => assigns_vars_stmt(s),
        checked::BlockItem::D(checked::Declaration::Variable { init: Some(e), .. }) => assigns_vars(e),
        checked::BlockItem::D(_) => true,
    }
}

pub open spec fn assigns_vars_items(s: Seq<checked::BlockItem>) -> bool
    decreases s,
{
    s.len() > 0 ==> assigns_vars_items(s.drop_last()) && assigns_vars_item(s.last())
}

/// A function body's code with `return 0` appended unless it already ends in a return.
pub open spec fn with_return(code: Seq<tacky::Instruction>) -> Seq<tacky::Instruction> {
    if code.len() > 0 && code.last() is Return {
        code
    } else {
        code.push(tacky::Instruction::Return(tacky::Val::Constant(0)))
    }
}

/// The function definitions (declarations with a body) of `s`, in order.
pub open spec fn definitions(s: Seq<checked::Declaration>) -> Seq<checked::Declaration>
    decreases s.len(),
{
    if s.len() == 0 {
        Seq::empty()
    } else if s.last() matches checked::Declaration::Function { body: Some(_), .. } {
        definitions(s.drop_last()).push(s.last())
    } else {
        definitions(s.drop_last())
    }
}

/// Every function definition of the program assigns only to variables.
pub open spec fn assigns_vars_decls(s: Seq<checked::Declaration>) -> bool
    decreases s,
{
    s.len() > 0 ==> assigns_vars_decls(s.drop_last()) && match s.last() {
        checked::Declaration::Function { body: Some(b), .. } => assigns_vars_items(b.blocks@),
        _ => true,
    }
}

proof fn lemma_assigns_args_prefix(s: Seq<checked::Expression>, n: int)
    requires
        0 < n <= s.len(),
        !assigns_vars_args(s.take(n)),
    ensures
        !assigns_vars_args(s),
    decreases s.len(),
{
    if n < s.len() {
        assert(s.drop_last().take(n) =~= s.take(n));
        lemma_assigns_args_prefix(s.drop_last(), n);
    } else {
        assert(s.take(n) =~= s);
    }
}

proof fn lemma_assigns_items_prefix(s: Seq<checked::BlockItem>, n: int)
    requires
        0 < n <= s.len(),
        !assigns_vars_items(s.take(n)),
    ensures
        !assigns_vars_items(s),
    decreases s.len(),
{
    if n < s.len() {
        assert(s.drop_last().take(n) =~= s.take(n));
        lemma_assigns_items_prefix(s.drop_last(), n);
    } else {
        assert(s.take(n) =~= s);
    }
}

proof fn lemma_assigns_decls_prefix(s: Seq<checked::Declaration>, n: int)
    requires
        0 < n <= s.len(),
        !assigns_vars_decls(s.take(n)),
    ensures
        !assigns_vars_decls(s),
    decreases s.len(),
{
    if n < s.len() {
        assert(s.drop_last().take(n) =~= s.take(n));
        lemma_assigns_decls_prefix(s.drop_last(), n);
    } else {
        assert(s.take(n) =~= s);
    }
}

// ---------------------------------------------------------------------------
// Facts about the emitted code
// ---------------------------------------------------------------------------

/// The label a jump goes to, if it is a jump.
pub open spec fn jump_target(i: tacky::Instruction) -> Option<Seq<char>> {
    match i {
        tacky::Instruction::Jump(t) => Some(t@),
        tacky::Instruction::JumpIfZero { target, .. } => Some(target@),
        tacky::Instruction::JumpIfNotZero { target, .. } => Some(target@),
        _ => None,
    }
}

pub open spec fn is_label(i: tacky::Instruction, l: Seq<char>) -> bool {
    i matches tacky::Instruction::Label(x) && x@ == l
}

/// The layout of a short-circuit operator in `code`: the right operand's code
/// occupies `code[mid + 1 .. end - 6]`, the jump at `mid` tests the left
/// operand and goes to the label at `end - 3`, past all of the right operand's
/// code, which defines no label of that name; the jump at `end - 6` tests the
/// right operand and goes to that same label.
pub open spec fn short_circuit_layout(code: Seq<tacky::Instruction>, mid: int, end: int, when_zero: bool) -> bool {
    &&& 0 <= mid < end - 6
    &&& end == code.len()
    &&& (if when_zero { code[mid] is JumpIfZero } else { code[mid] is JumpIfNotZero })
    &&& (if when_zero { code[end - 6] is JumpIfZero } else { code[end - 6] is JumpIfNotZero })
    &&& jump_target(code[mid]) is Some
    &&& jump_target(code[end - 6]) == jump_target(code[mid])
    &&& is_label(code[end - 3], jump_target(code[mid])->Some_0)
    &&& code[end - 5] matches tacky::Instruction::Copy { src: tacky::Val::Constant(c), .. } && c
        == (if when_zero { 1i32 } else { 0i32 })
    &&& code[end - 4] is Jump
    &&& code[end - 2] matches tacky::Instruction::Copy { src: tacky::Val::Constant(c), .. } && c
        == (if when_zero { 0i32 } else { 1i32 })
    &&& is_label(code[end - 1], jump_target(code[end - 4])->Some_0)
    &&& forall|i: int| mid < i < end - 6 ==> !is_label(#[trigger] code[i], jump_target(code[mid])->Some_0)
}

/// The loop a `break` or `continue` names.
pub open spec fn target_of(s: checked::Statement) -> usize {
    match s {
        checked::Statement::Break { target_id } => target_id,
        checked::Statement::Continue { target_id } => target_id,
        _ => 0,
    }
}

/// The name of a label: `_prefix_N`.
pub open spec fn label_name(prefix: Seq<char>, n: nat) -> Seq<char> {
    seq!['_'] + underscored(prefix, n)
}

/// The label `_prefix_id` of one of a loop's three targets.
pub fn loop_label(prefix: &str, id: usize) -> (r: String)
    ensures
        r@ == label_name(prefix@, id as nat),
{
    let mut s = String::from_str("_");
    let l = underscored_name(prefix, id);
    s.append(l.as_str());
    proof {
        reveal_strlit("_");
        assert(s@ =~= label_name(prefix@, id as nat));
    }
    s
}

/// `new` begins with `old`.
pub open spec fn extends<T>(new: Seq<T>, old: Seq<T>) -> bool {
    &&& old.len() <= new.len()
    &&& forall|i: int| 0 <= i < old.len() ==> #[trigger] new[i] == old[i]
}

proof fn lemma_size_args_prefix(s: Seq<checked::Expression>, n: int)
    requires
        0 <= n <= s.len(),
    ensures
        size_args(s.take(n)) <= size_args(s),
    decreases s.len(),
{
    if n < s.len() {
        assert(s.drop_last().take(n) =~= s.take(n));
        lemma_size_args_prefix(s.drop_last(), n);
    } else {
        assert(s.take(n) =~= s);
    }
}

proof fn lemma_size_arg_le(s: Seq<checked::Expression>, i: int)
    requires
        0 <= i < s.len(),
    ensures
        size_expr(s[i]) <= size_args(s),
    decreases s.len(),
{
    if i < s.len() - 1 {
        lemma_size_arg_le(s.drop_last(), i);
    }
}

proof fn lemma_size_item_le(s: Seq<checked::BlockItem>, i: int)
    requires
        0 <= i < s.len(),
    ensures
        size_item(s[i]) <= size_items(s),
    decreases s.len(),
{
    if i < s.len() - 1 {
        lemma_size_item_le(s.drop_last(), i);
    }
}

proof fn lemma_size_expr_positive(e: checked::Expression)
    ensures
        size_expr(e) >= 1,
{
}

proof fn lemma_size_items_prefix(s: Seq<checked::BlockItem>, n: int)
    requires
        0 <= n <= s.len(),
    ensures
        size_items(s.take(n)) <= size_items(s),
    decreases s.len(),
{
    if n < s.len() {
        assert(s.drop_last().take(n) =~= s.take(n));
        lemma_size_items_prefix(s.drop_last(), n);
    } else {
        assert(s.take(n) =~= s);
    }
}

proof fn lemma_size_decls_prefix(s: Seq<checked::Declaration>, n: int)
    requires
        0 <= n <= s.len(),
    ensures
        size_decls(s.take(n)) <= size_decls(s),
    decreases s.len(),
{
    if n < s.len() {
        assert(s.drop_last().take(n) =~= s.take(n));
        lemma_size_decls_prefix(s.drop_last(), n);
    } else {
        assert(s.take(n) =~= s);
    }
}

/// Every label defined in `code[start..]` is named `_prefix_N` with `N >= lo`.
pub open spec fn labels_from(code: Seq<tacky::Instruction>, start: int, lo: nat) -> bool {
    forall|i: int|
        start <= i < code.len() && (#[trigger] code[i]) is Label ==> exists|p: Seq<char>, n: nat|
            lo <= n && code[i]->Label_0@ == #[trigger] label_name(p, n)
}

/// A label name determines its number.
pub proof fn lemma_label_number(p: Seq<char>, q: Seq<char>, n: nat, m: nat)
    requires
        label_name(p, n) == label_name(q, m),
    ensures
        n == m,
{
    assert(label_name(p, n).subrange(1, label_name(p, n).len() as int) =~= underscored(p, n));
    assert(label_name(q, m).subrange(1, label_name(q, m).len() as int) =~= underscored(q, m));
    lemma_underscored_number(p, q, n, m);
}

proof fn lemma_labels_join(a: Seq<tacky::Instruction>, b: Seq<tacky::Instruction>, start: int, lo: nat, lo2: nat)
    requires
        0 <= start <= a.len(),
        extends(b, a),
        labels_from(a, start, lo),
        labels_from(b, a.len() as int, lo2),
        lo <= lo2,
    ensures
        labels_from(b, start, lo),
{
    assert forall|i: int| start <= i < b.len() && (#[trigger] b[i]) is Label implies exists|p: Seq<char>, n: nat|
        lo <= n && b[i]->Label_0@ == #[trigger] label_name(p, n) by {
        if i < a.len() {
            assert(b[i] == a[i]);
        }
    }
}

proof fn lemma_labels_push(a: Seq<tacky::Instruction>, x: tacky::Instruction, start: int, lo: nat)
    requires
        0 <= start <= a.len(),
        labels_from(a, start, lo),
        x is Label ==> exists|p: Seq<char>, n: nat| lo <= n && x->Label_0@ == #[trigger] label_name(p, n),
    ensures
        labels_from(a.push(x), start, lo),
{
    assert forall|i: int| start <= i < a.push(x).len() && (#[trigger] a.push(x)[i]) is Label implies exists|p: Seq<char>, n: nat|
        lo <= n && a.push(x)[i]->Label_0@ == #[trigger] label_name(p, n) by {
        if i < a.len() {
            assert(a.push(x)[i] == a[i]);
        }
    }
}

/// Lowers the checked tree to three-address code.
pub struct TackyGenerator<'a> {
    label_counter: usize,
    id_generator: &'a mut UniqueIdGenerator,
}

fn var_of(name: &String) -> (r: tacky::Val)
    ensures
        r matches tacky::Val::Var(n) && n == *name,
{
    tacky::Val::Var(name.clone())
}

fn copy_val(v: &tacky::Val) -> (r: tacky::Val)
    ensures
        r == *v,
{
    match v {
        tacky::Val::Constant(c) => tacky::Val::Constant(*c),
        tacky::Val::Var(n) => tacky::Val::Var(n.clone()),
    }
}

impl<'a> TackyGenerator<'a> {
    /// The number the next temporary gets.
    pub closed spec fn temps(&self) -> nat {
        self.id_generator.peek()
    }

    /// The number the next label gets.
    pub closed spec fn labels(&self) -> nat {
        self.label_counter as nat
    }

    /// Room for lowering a tree of size `n`.
    pub open spec fn room(&self, n: nat) -> bool {
        &&& self.temps() + n < usize::MAX
        &&& self.labels() + 2 * n < usize::MAX
    }

    /// Counters grew within the budget of a tree of size `n`.
    pub open spec fn used(&self, before: &Self, n: nat) -> bool {
        &&& before.temps() <= self.temps() <= before.temps() + n
        &&& before.labels() <= self.labels() <= before.labels() + 2 * n
    }

    pub fn new(id_generator: &'a mut UniqueIdGenerator) -> (r: Self)
        ensures
            r.temps() == old(id_generator).peek(),
            r.labels() == 0,
    {
        TackyGenerator { label_counter: 0, id_generator }
    }

    fn convert_unop(op: checked::UnaryOperator) -> tacky::UnaryOperator {
        match op {
            checked::UnaryOperator::Negate => tacky::UnaryOperator::Negate,
            checked::UnaryOperator::Complement => tacky::UnaryOperator::Complement,
            checked::UnaryOperator::Not => tacky::UnaryOperator::Not,
        }
    }

    /// The three-address operator of a binary operator that is not `&&` or `||`.
    fn convert_binop(op: checked::BinaryOperator) -> (r: tacky::BinaryOperator)
        requires
            op != checked::BinaryOperator::And,
            op != checked::BinaryOperator::Or,
    {
        match op {
            checked::BinaryOperator::Add => tacky::BinaryOperator::Add,
            checked::BinaryOperator::Subtract => tacky::BinaryOperator::Subtract,
            checked::BinaryOperator::Multiply => tacky::BinaryOperator::Multiply,
            checked::BinaryOperator::Divide => tacky::BinaryOperator::Divide,
            checked::BinaryOperator::Remainder => tacky::BinaryOperator::Remainder,
            checked::BinaryOperator::Equal => tacky::BinaryOperator::Equal,
            checked::BinaryOperator::NotEqual => tacky::BinaryOperator::NotEqual,
            checked::BinaryOperator::LessThan => tacky::BinaryOperator::LessThan,
            checked::BinaryOperator::LessOrEqual => tacky::BinaryOperator::LessOrEqual,
            checked::BinaryOperator::GreaterThan => tacky::BinaryOperator::GreaterThan,
            checked::BinaryOperator::GreaterOrEqual => tacky::BinaryOperator::GreaterEqual,
            checked::BinaryOperator::And | checked::BinaryOperator::Or => {
                // ruled out by the precondition: these two lower to jumps
                proof {
                    assert(false);
                }
                tacky::BinaryOperator::Add
            },
        }
    }

    /// Lowers `left && right` (`is_and`) or `left || right`: the right operand
    /// is evaluated only when the left one does not decide the result.
    fn emit_short_circuit(
        &mut self,
        is_and: bool,
        left: &checked::Expression,
        right: &checked::Expression,
        instructions: &mut Vec<tacky::Instruction>,
    ) -> (r: Result<tacky::Val, String>)
        requires
            old(self).room(1 + size_expr(*left) + size_expr(*right)),
        ensures
            final(self).used(old(self), 1 + size_expr(*left) + size_expr(*right)),
            extends(final(instructions)@, old(instructions)@),
            labels_from(final(instructions)@, old(instructions)@.len() as int, old(self).labels()),
            r is Ok <==> assigns_vars(*left) && assigns_vars(*right),
            r is Ok ==> exists|mid: int|
                old(instructions)@.len() <= mid && #[trigger] short_circuit_layout(
                    final(instructions)@,
                    mid,
                    final(instructions)@.len() as int,
                    is_and,
                ),
        decreases size_expr(*left) + size_expr(*right), 0nat,
    {
        proof {
            lemma_size_expr_positive(*left);
            lemma_size_expr_positive(*right);
        }
        let ghost start = instructions@.len() as int;
        let result_var = self.make_temporary();
        let ghost n0 = self.labels();
        let ghost dp: Seq<char> = if is_and { "and_false"@ } else { "or_true"@ };
        let ghost ep: Seq<char> = if is_and { "and_end"@ } else { "or_end"@ };
        let (decided, end_label) = if is_and {
            (self.make_label_with_prefix("and_false"), self.make_label_with_prefix("and_end"))
        } else {
            (self.make_label_with_prefix("or_true"), self.make_label_with_prefix("or_end"))
        };
        let ghost l1 = self.labels();
        let v1 = self.emit_expression(left, instructions)?;
        let ghost after_left = instructions@;
        let ghost mid = instructions@.len() as int;
        if is_and {
            instructions.push(tacky::Instruction::JumpIfZero { condition: v1, target: decided.clone() });
        } else {
            instructions.push(tacky::Instruction::JumpIfNotZero { condition: v1, target: decided.clone() });
        }
        let ghost i1 = instructions@;
        let ghost l2 = self.labels();
        let v2 = self.emit_expression(right, instructions)?;
        let ghost after_right = instructions@;
        let (on_fallthrough, on_jump) = if is_and { (1i32, 0i32) } else { (0i32, 1i32) };
        if is_and {
            instructions.push(tacky::Instruction::JumpIfZero { condition: v2, target: decided.clone() });
        } else {
            instructions.push(tacky::Instruction::JumpIfNotZero { condition: v2, target: decided.clone() });
        }
        instructions.push(tacky::Instruction::Copy {
            src: tacky::Val::Constant(on_fallthrough),
            dst: copy_val(&result_var),
        });
        instructions.push(tacky::Instruction::Jump(end_label.clone()));
        let ghost decided_name = decided@;
        instructions.push(tacky::Instruction::Label(decided));
        instructions.push(tacky::Instruction::Copy {
            src: tacky::Val::Constant(on_jump),
            dst: copy_val(&result_var),
        });
        instructions.push(tacky::Instruction::Label(end_label));
        proof {
            let code = instructions@;
            assert(code[mid] == i1[mid]);
            assert(decided_name == label_name(dp, n0));
            assert forall|i: int| start <= i < code.len() && (#[trigger] code[i]) is Label implies exists|
                p: Seq<char>,
                n: nat,
            | n0 <= n && code[i]->Label_0@ == #[trigger] label_name(p, n) by {
                if i < mid {
                    assert(code[i] == after_left[i]);
                } else if mid < i < after_right.len() {
                    assert(code[i] == after_right[i]);
                } else if i == code.len() - 3 {
                    assert(code[i]->Label_0@ == label_name(dp, n0));
                } else if i == code.len() - 1 {
                    assert(code[i]->Label_0@ == label_name(ep, (n0 + 1) as nat));
                }
            }
            assert forall|i: int| mid < i < code.len() - 6 implies !is_label(
                #[trigger] code[i],
                decided_name,
            ) by {
                if is_label(code[i], decided_name) {
                    assert(code[i] == after_right[i]);
                    let (p, n) = choose|p: Seq<char>, n: nat|
                        l2 <= n && after_right[i]->Label_0@ == #[trigger] label_name(p, n);
                    lemma_label_number(p, dp, n, n0);
                }
            }
            assert(short_circuit_layout(code, mid, code.len() as int, is_and));
        }
        Ok(result_var)
    }

    /// Lowers `exp`, appending its code to `instructions`, and returns the value
    /// that holds its result.
    pub fn emit_expression(&mut self, exp: &checked::Expression, instructions: &mut Vec<tacky::Instruction>) -> (r: Result<
        tacky::Val,
        String,
    >)
        requires
            old(self).room(size_expr(*exp)),
        ensures
            final(self).used(old(self), size_expr(*exp)),
            extends(final(instructions)@, old(instructions)@),
            labels_from(final(instructions)@, old(instructions)@.len() as int, old(self).labels()),
            r is Ok <==> assigns_vars(*exp),
            *exp is Constant ==> r == Ok::<tacky::Val, String>(
                tacky::Val::Constant(exp->Constant_0),
            ) && final(instructions)@ == old(instructions)@,
            (r is Ok && *exp is Binary && exp->Binary_operator == checked::BinaryOperator::And)
                ==> exists|mid: int|
                old(instructions)@.len() <= mid && #[trigger] short_circuit_layout(
                    final(instructions)@,
                    mid,
                    final(instructions)@.len() as int,
                    true,
                ),
            (r is Ok && *exp is Binary && exp->Binary_operator == checked::BinaryOperator::Or)
                ==> exists|mid: int|
                old(instructions)@.len() <= mid && #[trigger] short_circuit_layout(
                    final(instructions)@,
                    mid,
                    final(instructions)@.len() as int,
                    false,
                ),
        decreases size_expr(*exp), 1nat,
    {
        let ghost i0 = instructions@;
        match exp {
            checked::Expression::Var(name) => Ok(var_of(name)),
            checked::Expression::Constant(i) => Ok(tacky::Val::Constant(*i)),
            checked::Expression::Assign { left, right } => {
                let rhs_val = self.emit_expression(right, instructions)?;
                match &**left {
                    checked::Expression::Var(var_name) => {
                        instructions.push(tacky::Instruction::Copy {
                            src: copy_val(&rhs_val),
                            dst: var_of(var_name),
                        });
                        Ok(rhs_val)
                    },
                    _ => Err(String::from_str("Invalid left-hand side in assignment.")),
                }
            },
            checked::Expression::Unary { operator, expression } => {
                let src = self.emit_expression(expression, instructions)?;
                let dst = self.make_temporary();
                instructions.push(tacky::Instruction::Unary {
                    op: Self::convert_unop(*operator),
                    src,
                    dst: copy_val(&dst),
                });
                Ok(dst)
            },
            checked::Expression::Binary { operator, left, right } => {
                match operator {
                    checked::BinaryOperator::And => self.emit_short_circuit(true, left, right, instructions),
                    checked::BinaryOperator::Or => self.emit_short_circuit(false, left, right, instructions),
                    _ => {
                        let src1 = self.emit_expression(left, instructions)?;
                        let src2 = self.emit_expression(right, instructions)?;
                        let dst = self.make_temporary();
                        instructions.push(tacky::Instruction::Binary {
                            op: Self::convert_binop(*operator),
                            src1,
                            src2,
                            dst: copy_val(&dst),
                        });
                        Ok(dst)
                    },
                }
            },
            checked::Expression::Conditional { condition, left, right } => {
                let result_var = self.make_temporary();
                let else_label = self.make_label_with_prefix("cond_else");
                let end_label = self.make_label_with_prefix("cond_end");
                let cond_val = self.emit_expression(condition, instructions)?;
                instructions.push(tacky::Instruction::JumpIfZero {
                    condition: cond_val,
                    target: else_label.clone(),
                });
                let then_val = self.emit_expression(left, instructions)?;
                instructions.push(tacky::Instruction::Copy { src: then_val, dst: copy_val(&result_var) });
                instructions.push(tacky::Instruction::Jump(end_label.clone()));
                instructions.push(tacky::Instruction::Label(else_label));
                let else_val = self.emit_expression(right, instructions)?;
                instructions.push(tacky::Instruction::Copy { src: else_val, dst: copy_val(&result_var) });
                instructions.push(tacky::Instruction::Label(end_label));
                Ok(result_var)
            },
            checked::Expression::FunctionCall { name, args } => {
                let mut values: Vec<tacky::Val> = Vec::new();
                let mut i: usize = 0;
                let ghost t0 = self.temps();
                let ghost l0 = self.labels();
                proof {
                    assert(args@.take(0) =~= Seq::<checked::Expression>::empty());
                }
                while i < args.len()
                    invariant
                        i <= args.len(),
                        t0 == old(self).temps(),
                        l0 == old(self).labels(),
                        i0 == old(instructions)@,
                        t0 + size_args(args@) < usize::MAX - 1,
                        l0 + 2 * size_args(args@) < usize::MAX - 2,
                        size_expr(*exp) == 1 + size_args(args@),
                        t0 <= self.temps() <= t0 + size_args(args@.take(i as int)),
                        l0 <= self.labels() <= l0 + 2 * size_args(args@.take(i as int)),
                        extends(instructions@, i0),
                        labels_from(instructions@, i0.len() as int, l0),
                        assigns_vars_args(args@.take(i as int)),
                        *exp is FunctionCall,
                        args@ == (exp->FunctionCall_args)@,
                    decreases args.len() - i,
                {
                    proof {
                        assert(args@.take(i + 1).drop_last() =~= args@.take(i as int));
                        assert(args@.take(i + 1).last() == args@[i as int]);
                        lemma_size_args_prefix(args@, i + 1);
                        lemma_size_arg_le(args@, i as int);
                    }
                    let ghost ib = instructions@;
                    let ghost lb = self.labels();
                    let v = match self.emit_expression(&args[i], instructions) {
                        Ok(v) => v,
                        Err(e) => {
                            proof {
                                lemma_assigns_args_prefix(args@, i + 1);
                                lemma_labels_join(ib, instructions@, i0.len() as int, l0, lb);
                            }
                            return Err(e);
                        },
                    };
                    proof {
                        lemma_labels_join(ib, instructions@, i0.len() as int, l0, lb);
                    }
                    values.push(v);
                    i = i + 1;
                }
                proof {
                    assert(args@.take(args.len() as int) =~= args@);
                }
                let dst = self.make_temporary();
                let ghost before_call = instructions@;
                instructions.push(tacky::Instruction::FunCall {
                    name: name.clone(),
                    args: values,
                    dst: copy_val(&dst),
                });
                proof {
                    lemma_labels_push(before_call, instructions@.last(), i0.len() as int, l0);
                    assert(before_call.push(instructions@.last()) =~= instructions@);
                }
                Ok(dst)
            },
        }
    }

    fn emit_optional(&mut self, exp: &Option<checked::Expression>, instructions: &mut Vec<tacky::Instruction>) -> (r: Result<(), String>)
        requires
            old(self).room(size_opt(*exp)),
        ensures
            final(self).used(old(self), size_opt(*exp)),
            extends(final(instructions)@, old(instructions)@),
            r is Ok <==> assigns_vars_opt(*exp),
    {
        match exp {
            Some(e) => {
                self.emit_expression(e, instructions)?;
                Ok(())
            },
            None => Ok(()),
        }
    }

    fn emit_block_item(&mut self, item: &checked::BlockItem, instructions: &mut Vec<tacky::Instruction>) -> (r: Result<(), String>)
        requires
            old(self).room(size_item(*item)),
        ensures
            final(self).used(old(self), size_item(*item)),
            extends(final(instructions)@, old(instructions)@),
            r is Ok <==> assigns_vars_item(*item),
        decreases size_item(*item), 1nat,
    {
        match item {
            checked::BlockItem::D(checked::Declaration::Variable { name, init: Some(init_expr) }) => {
                // `int x = e;` is `x = e;`
                let rhs_val = self.emit_expression(init_expr, instructions)?;
                instructions.push(tacky::Instruction::Copy { src: rhs_val, dst: var_of(name) });
                Ok(())
            },
            checked::BlockItem::D(_) => Ok(()),
            checked::BlockItem::S(statement) => self.emit_statement(statement, instructions),
        }
    }

    fn emit_block(&mut self, block: &checked::Block, instructions: &mut Vec<tacky::Instruction>) -> (r: Result<(), String>)
        requires
            old(self).room(size_items(block.blocks@)),
        ensures
            final(self).used(old(self), size_items(block.blocks@)),
            extends(final(instructions)@, old(instructions)@),
            r is Ok <==> assigns_vars_items(block.blocks@),
        decreases size_items(block.blocks@), 2nat,
    {
        let ghost t0 = self.temps();
        let ghost l0 = self.labels();
        let ghost i0 = instructions@;
        let mut i: usize = 0;
        proof {
            assert(block.blocks@.take(0) =~= Seq::<checked::BlockItem>::empty());
        }
        while i < block.blocks.len()
            invariant
                i <= block.blocks.len(),
                t0 == old(self).temps(),
                l0 == old(self).labels(),
                i0 == old(instructions)@,
                old(self).room(size_items(block.blocks@)),
                t0 <= self.temps() <= t0 + size_items(block.blocks@.take(i as int)),
                l0 <= self.labels() <= l0 + 2 * size_items(block.blocks@.take(i as int)),
                extends(instructions@, i0),
                assigns_vars_items(block.blocks@.take(i as int)),
            decreases block.blocks.len() - i,
        {
            proof {
                let s = block.blocks@;
                assert(s.take(i + 1).drop_last() =~= s.take(i as int));
                assert(s.take(i + 1).last() == s[i as int]);
                lemma_size_items_prefix(s, i + 1);
                lemma_size_item_le(s, i as int);
            }
            match self.emit_block_item(&block.blocks[i], instructions) {
                Ok(()) => {},
                Err(e) => {
                    proof {
                        lemma_assigns_items_prefix(block.blocks@, i + 1);
                    }
                    return Err(e);
                },
            }
            i = i + 1;
        }
        proof {
            assert(block.blocks@.take(block.blocks.len() as int) =~= block.blocks@);
        }
        Ok(())
    }

    /// Appends the code of `stmt`. Loops use the labels `_loop_start_ID`,
    /// `_continue_ID` and `_break_ID` of their id, and jumps go to the label of
    /// the id they carry.
    pub fn emit_statement(&mut self, stmt: &checked::Statement, instructions: &mut Vec<tacky::Instruction>) -> (r: Result<(), String>)
        requires
            old(self).room(size_stmt(*stmt)),
        ensures
            final(self).used(old(self), size_stmt(*stmt)),
            extends(final(instructions)@, old(instructions)@),
            r is Ok <==> assigns_vars_stmt(*stmt),
            *stmt is Break ==> r is Ok && final(instructions)@ == old(instructions)@.push(
                final(instructions)@.last(),
            ) && (final(instructions)@.last() matches tacky::Instruction::Jump(l) && l@ == label_name(
                "break"@,
                target_of(*stmt) as nat,
            )),
            *stmt is Continue ==> r is Ok && final(instructions)@ == old(instructions)@.push(
                final(instructions)@.last(),
            ) && (final(instructions)@.last() matches tacky::Instruction::Jump(l) && l@ == label_name(
                "continue"@,
                target_of(*stmt) as nat,
            )),
            *stmt is Return && r is Ok ==> final(instructions)@.last() is Return,
        decreases size_stmt(*stmt), 0nat,
    {
        match stmt {
            checked::Statement::Return(exp) => {
                let return_val = self.emit_expression(exp, instructions)?;
                instructions.push(tacky::Instruction::Return(return_val));
                Ok(())
            },
            checked::Statement::Expression(exp) => {
                self.emit_expression(exp, instructions)?;
                Ok(())
            },
            checked::Statement::Empty => Ok(()),
            checked::Statement::If { condition, then_stat, else_stat } => {
                match else_stat {
                    Some(else_s) => {
                        let else_label = self.make_label_with_prefix("else");
                        let end_label = self.make_label_with_prefix("if_end");
                        let cond_val = self.emit_expression(condition, instructions)?;
                        instructions.push(tacky::Instruction::JumpIfZero {
                            condition: cond_val,
                            target: else_label.clone(),
                        });
                        self.emit_statement(then_stat, instructions)?;
                        instructions.push(tacky::Instruction::Jump(end_label.clone()));
                        instructions.push(tacky::Instruction::Label(else_label));
                        self.emit_statement(else_s, instructions)?;
                        instructions.push(tacky::Instruction::Label(end_label));
                    },
                    None => {
                        let end_label = self.make_label_with_prefix("if_end");
                        let cond_val = self.emit_expression(condition, instructions)?;
                        instructions.push(tacky::Instruction::JumpIfZero {
                            condition: cond_val,
                            target: end_label.clone(),
                        });
                        self.emit_statement(then_stat, instructions)?;
                        instructions.push(tacky::Instruction::Label(end_label));
                    },
                }
                Ok(())
            },
            checked::Statement::Compound(b) => self.emit_block(b, instructions),
            checked::Statement::Break { target_id } => {
                instructions.push(tacky::Instruction::Jump(loop_label("break", *target_id)));
                Ok(())
            },
            checked::Statement::Continue { target_id } => {
                instructions.push(tacky::Instruction::Jump(loop_label("continue", *target_id)));
                Ok(())
            },
            checked::Statement::DoWhile { body, condition, id } => {
                let start_label = loop_label("loop_start", *id);
                instructions.push(tacky::Instruction::Label(start_label.clone()));
                self.emit_statement(body, instructions)?;
                instructions.push(tacky::Instruction::Label(loop_label("continue", *id)));
                let cond_val = self.emit_expression(condition, instructions)?;
                instructions.push(tacky::Instruction::JumpIfNotZero { condition: cond_val, target: start_label });
                instructions.push(tacky::Instruction::Label(loop_label("break", *id)));
                Ok(())
            },
            checked::Statement::While { condition, body, id } => {
                let continue_label = loop_label("continue", *id);
                let break_label = loop_label("break", *id);
                instructions.push(tacky::Instruction::Label(continue_label.clone()));
                let cond_val = self.emit_expression(condition, instructions)?;
                instructions.push(tacky::Instruction::JumpIfZero {
                    condition: cond_val,
                    target: break_label.clone(),
                });
                self.emit_statement(body, instructions)?;
                instructions.push(tacky::Instruction::Jump(continue_label));
                instructions.push(tacky::Instruction::Label(break_label));
                Ok(())
            },
            checked::Statement::For { init, condition, post, body, id } => {
                let start_label = loop_label("loop_start", *id);
                let break_label = loop_label("break", *id);
                match init {
                    Some(init_item) => self.emit_block_item(init_item, instructions)?,
                    None => {},
                }
                instructions.push(tacky::Instruction::Label(start_label.clone()));
                match condition {
                    Some(cond_expr) => {
                        let cond_val = self.emit_expression(cond_expr, instructions)?;
                        instructions.push(tacky::Instruction::JumpIfZero {
                            condition: cond_val,
                            target: break_label.clone(),
                        });
                    },
                    None => {},
                }
                self.emit_statement(body, instructions)?;
                // `continue` must still run the post-expression.
                instructions.push(tacky::Instruction::Label(loop_label("continue", *id)));
                self.emit_optional(post, instructions)?;
                instructions.push(tacky::Instruction::Jump(start_label));
                instructions.push(tacky::Instruction::Label(break_label));
                Ok(())
            },
        }
    }

    /// Lowers one function definition; a body that does not end in `return`
    /// gets `return 0` appended.
    fn emit_function(&mut self, name: &String, params: &Vec<String>, body: &checked::Block) -> (r: Result<tacky::Function, String>)
        requires
            old(self).room(size_items(body.blocks@)),
        ensures
            final(self).used(old(self), size_items(body.blocks@)),
            r is Ok <==> assigns_vars_items(body.blocks@),
            r matches Ok(f) ==> f.name == *name && f.params@ == params@ && f.body@.len() > 0
                && f.body@.last() is Return && exists|code: Seq<tacky::Instruction>|
                f.body@ == #[trigger] with_return(code),
    {
        let mut instructions: Vec<tacky::Instruction> = Vec::new();
        self.emit_block(body, &mut instructions)?;
        let ends_in_return = instructions.len() > 0 && match &instructions[instructions.len() - 1] {
            tacky::Instruction::Return(_) => true,
            _ => false,
        };
        let ghost code = instructions@;
        if !ends_in_return {
            instructions.push(tacky::Instruction::Return(tacky::Val::Constant(0)));
        }
        proof {
            assert(instructions@ == with_return(code));
        }
        Ok(tacky::Function { name: name.clone(), params: params.clone(), body: instructions })
    }

    /// Lowers every function definition of `program`, in order; prototypes and
    /// top-level variables produce no code.
    pub fn generate_tacky(&mut self, program: checked::Program) -> (r: Result<tacky::Program, String>)
        requires
            old(self).room(size_decls(program.declarations@)),
        ensures
            r is Ok <==> assigns_vars_decls(program.declarations@),
            r matches Ok(p) ==> {
                &&& p.functions@.len() == definitions(program.declarations@).len()
                &&& forall|i: int|
                    0 <= i < p.functions@.len() ==> (#[trigger] p.functions@[i]).name
                        == definitions(program.declarations@)[i]->Function_name
                        && p.functions@[i].params@ == definitions(program.declarations@)[i]->Function_params@
            },
            r matches Ok(p) ==> forall|i: int|
                0 <= i < p.functions@.len() ==> (#[trigger] p.functions@[i]).body@.len() > 0
                    && p.functions@[i].body@.last() is Return,
    {
        let mut functions: Vec<tacky::Function> = Vec::new();
        let ghost t0 = self.temps();
        let ghost l0 = self.labels();
        let decls = &program.declarations;
        let mut i: usize = 0;
        proof {
            assert(decls@.take(0) =~= Seq::<checked::Declaration>::empty());
        }
        while i < decls.len()
            invariant
                i <= decls.len(),
                old(self).room(size_decls(decls@)),
                t0 == old(self).temps(),
                l0 == old(self).labels(),
                t0 <= self.temps() <= t0 + size_decls(decls@.take(i as int)),
                l0 <= self.labels() <= l0 + 2 * size_decls(decls@.take(i as int)),
                forall|j: int|
                    0 <= j < functions@.len() ==> (#[trigger] functions@[j]).body@.len() > 0
                        && functions@[j].body@.last() is Return,
                assigns_vars_decls(decls@.take(i as int)),
                decls@ == program.declarations@,
                functions@.len() == definitions(decls@.take(i as int)).len(),
                forall|j: int|
                    0 <= j < functions@.len() ==> (#[trigger] functions@[j]).name
                        == definitions(decls@.take(i as int))[j]->Function_name
                        && functions@[j].params@ == definitions(decls@.take(i as int))[j]->Function_params@,
            decreases decls.len() - i,
        {
            proof {
                assert(decls@.take(i + 1).drop_last() =~= decls@.take(i as int));
                assert(decls@.take(i + 1).last() == decls@[i as int]);
                lemma_size_decls_prefix(decls@, i + 1);
            }
            match &decls[i] {
                checked::Declaration::Function { name, params, body: Some(b) } => {
                    let f = match self.emit_function(name, params, b) {
                        Ok(f) => f,
                        Err(e) => {
                            proof {
                                assert(decls@.take(i + 1).last() == decls@[i as int]);
                                assert(!assigns_vars_decls(decls@.take(i + 1)));
                                lemma_assigns_decls_prefix(decls@, i + 1);
                            }
                            return Err(e);
                        },
                    };
                    functions.push(f);
                },
                _ => {},
            }
            i = i + 1;
        }
        proof {
            assert(decls@.take(decls.len() as int) =~= decls@);
        }
        Ok(tacky::Program { functions })
    }

    /// A fresh temporary `tmp.N`.
    fn make_temporary(&mut self) -> (r: tacky::Val)
        requires
            old(self).temps() < usize::MAX,
        ensures
            r matches tacky::Val::Var(n) && n@ == numbered("tmp"@, old(self).temps()),
            final(self).temps() == old(self).temps() + 1,
            final(self).labels() == old(self).labels(),
    {
        let id = self.id_generator.next();
        tacky::Val::Var(numbered_name("tmp", id))
    }

    /// A fresh label `_prefix_N`.
    fn make_label_with_prefix(&mut self, prefix: &str) -> (r: String)
        requires
            old(self).labels() < usize::MAX,
        ensures
            r@ == label_name(prefix@, old(self).labels()),
            final(self).labels() == old(self).labels() + 1,
            final(self).temps() == old(self).temps(),
    {
        let n = self.label_counter;
        self.label_counter = self.label_counter + 1;
        loop_label(prefix, n)
    }
}

} // verus!
