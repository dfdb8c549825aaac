use vstd::prelude::*;
use vstd::string::*;

use crate::ast::unchecked::{Block, BlockItem, Declaration, Expression, Program, Statement};
use crate::common::{numbered, numbered_name, UniqueIdGenerator};

verus! {

/// What a name resolves to: its scope-unique name, and whether it has
/// external linkage (a top-level function or variable).
pub struct IdentifierInfo {
    pub unique_name: String,
    pub has_external_linkage: bool,
}

impl IdentifierInfo {
    pub open spec fn view(&self) -> (Seq<char>, bool) {
        (self.unique_name@, self.has_external_linkage)
    }

    fn duplicate(&self) -> (r: IdentifierInfo)
        ensures
            r.view() == self.view(),
    {
        IdentifierInfo {
            unique_name: self.unique_name.clone(),
            has_external_linkage: self.has_external_linkage,
        }
    }
}

struct ScopeEntry {
    name: String,
    info: IdentifierInfo,
}

/// A frame as a list of (source name, unique name, linkage); a later entry
/// for the same source name replaces an earlier one.
pub type Frame = Seq<(Seq<char>, Seq<char>, bool)>;

/// What `key` means in one frame.
pub open spec fn frame_lookup(f: Frame, key: Seq<char>) -> Option<(Seq<char>, bool)>
    decreases f.len(),
{
    if f.len() == 0 {
        None
    } else if f.last().0 == key {
        Some((f.last().1, f.last().2))
    } else {
        frame_lookup(f.drop_last(), key)
    }
}

/// What `key` means in a stack of frames, searched innermost (last) first.
pub open spec fn scopes_lookup(s: Seq<Frame>, key: Seq<char>) -> Option<(Seq<char>, bool)>
    decreases s.len(),
{
    if s.len() == 0 {
        None
    } else {
        match frame_lookup(s.last(), key) {
            Some(i) => Some(i),
            None => scopes_lookup(s.drop_last(), key),
        }
    }
}

/// The diagnostic of the first problem met while resolving `e` (operands in
/// evaluation order), or `None`.
pub open spec fn expr_error(e: Expression, sc: Seq<Frame>) -> Option<Seq<char>>
    decreases e,
{
    match e {
        Expression::Constant(_) => None,
        Expression::Var(n) => if scopes_lookup(sc, n@) is Some {
            None
        } else {
            Some("Use of undeclared variable '"@ + n@ + "'"@)
        },
        Expression::Unary { expression, .. } => expr_error(*expression, sc),
        Expression::Binary { left, right, .. } => match expr_error(*left, sc) {
            Some(m) => Some(m),
            None => expr_error(*right, sc),
        },
        Expression::Assign { left, right } => if !((*left) is Var) {
            Some("Invalid l-value for assignment"@)
        } else {
            match expr_error(*left, sc) {
                Some(m) => Some(m),
                None => expr_error(*right, sc),
            }
        },
        Expression::Conditional { condition, left, right } => match expr_error(*condition, sc) {
            Some(m) => Some(m),
            None => match expr_error(*left, sc) {
                Some(m) => Some(m),
                None => expr_error(*right, sc),
            },
        },
        Expression::FunctionCall { name, args } => match scopes_lookup(sc, name@) {
            None => Some("Call to undeclared function '"@ + name@ + "'"@),
            Some((_, linked)) => if !linked {
                Some("'"@ + name@ + "' is a variable and cannot be called as a function"@)
            } else {
                args_error(args@, sc)
            },
        },
    }
}

pub open spec fn args_error(args: Seq<Expression>, sc: Seq<Frame>) -> Option<Seq<char>>
    decreases args,
{
    if args.len() == 0 {
        None
    } else {
        match args_error(args.drop_last(), sc) {
            Some(m) => Some(m),
            None => expr_error(args.last(), sc),
        }
    }
}

/// Every name that `e` reads or calls is declared, every call names something
/// with linkage, and every assignment writes to a plain variable.
pub open spec fn resolves_expr(e: Expression, sc: Seq<Frame>) -> bool
    decreases e,
{
    match e {
        Expression::Constant(_) => true,
        Expression::Var(n) => scopes_lookup(sc, n@) is Some,
        Expression::Unary { expression, .. } => resolves_expr(*expression, sc),
        Expression::Binary { left, right, .. } => resolves_expr(*left, sc) && resolves_expr(
            *right,
            sc,
        ),
        Expression::Assign { left, right } => {
            &&& (*left) is Var
            &&& resolves_expr(*left, sc)
            &&& resolves_expr(*right, sc)
        },
        Expression::Conditional { condition, left, right } => {
            &&& resolves_expr(*condition, sc)
            &&& resolves_expr(*left, sc)
            &&& resolves_expr(*right, sc)
        },
        Expression::FunctionCall { name, args } => {
            &&& scopes_lookup(sc, name@) matches Some((_, linked)) && linked
            &&& resolves_args(args@, sc)
        },
    }
}

pub open spec fn resolves_args(args: Seq<Expression>, sc: Seq<Frame>) -> bool
    decreases args,
{
    args.len() > 0 ==> resolves_args(args.drop_last(), sc) && resolves_expr(args.last(), sc)
}

/// `r` is `u` with every variable and callee replaced by the unique name it
/// resolves to in `sc`.
pub open spec fn renamed_expr(r: Expression, u: Expression, sc: Seq<Frame>) -> bool
    decreases u,
{
    match u {
        Expression::Constant(c) => r == Expression::Constant(c),
        Expression::Var(n) => r matches Expression::Var(m) && scopes_lookup(sc, n@) matches Some(
            (un, _),
        ) && m@ == un,
        Expression::Unary { operator, expression } => match r {
            Expression::Unary { operator: ro, expression: re } => ro == operator && renamed_expr(
                *re,
                *expression,
                sc,
            ),
            _ => false,
        },
        Expression::Binary { operator, left, right } => match r {
            Expression::Binary { operator: ro, left: rl, right: rr } => {
                &&& ro == operator
                &&& renamed_expr(*rl, *left, sc)
                &&& renamed_expr(*rr, *right, sc)
            },
            _ => false,
        },
        Expression::Assign { left, right } => match r {
            Expression::Assign { left: rl, right: rr } => renamed_expr(*rl, *left, sc)
                && renamed_expr(*rr, *right, sc),
            _ => false,
        },
        Expression::Conditional { condition, left, right } => match r {
            Expression::Conditional { condition: rc, left: rl, right: rr } => {
                &&& renamed_expr(*rc, *condition, sc)
                &&& renamed_expr(*rl, *left, sc)
                &&& renamed_expr(*rr, *right, sc)
            },
            _ => false,
        },
        Expression::FunctionCall { name, args } => match r {
            Expression::FunctionCall { name: rn, args: ra } => {
                &&& scopes_lookup(sc, name@) matches Some((un, _)) && rn@ == un
                &&& renamed_args(ra@, args@, sc)
            },
            _ => false,
        },
    }
}

pub open spec fn renamed_args(r: Seq<Expression>, u: Seq<Expression>, sc: Seq<Frame>) -> bool
    decreases u,
{
    &&& r.len() == u.len()
    &&& (u.len() > 0 ==> renamed_args(r.drop_last(), u.drop_last(), sc) && renamed_expr(
        r.last(),
        u.last(),
        sc,
    ))
}

/// An upper bound on the fresh names that resolving a tree mints: one per
/// parameter and per variable declaration.
pub open spec fn names_decl(d: Declaration) -> nat
    decreases d,
{
    match d {
        Declaration::Function { params, body, .. } => params@.len() + match body {
            Some(b) => names_items(b.blocks@),
            None => 0,
        },
        Declaration::Variable { .. } => 1,
    }
}

pub open spec fn names_stmt(s: Statement) -> nat
    decreases s,
{
    match s {
        Statement::If { then_stat, else_stat, .. } => names_stmt(*then_stat) + match else_stat {
            Some(e) => names_stmt(*e),
            None => 0,
        },
        Statement::Compound(b) => names_items(b.blocks@),
        Statement::While { body, .. } => names_stmt(*body),
        Statement::DoWhile { body, .. } => names_stmt(*body),
        Statement::For { init, body, .. } => names_stmt(*body) + match init {
            Some(i) => names_item(*i),
            None => 0,
        },
        _ => 0,
    }
}

pub open spec fn names_item(i: BlockItem) -> nat
    decreases i,
{
    match i {
        BlockItem::S(s) => names_stmt(s),
        BlockItem::D(d) => names_decl(d),
    }
}

pub open spec fn names_items(s: Seq<BlockItem>) -> nat
    decreases s,
{
    if s.len() == 0 {
        0
    } else {
        names_items(s.drop_last()) + names_item(s.last())
    }
}

pub open spec fn names_decls(s: Seq<Declaration>) -> nat
    decreases s,
{
    if s.len() == 0 {
        0
    } else {
        names_decls(s.drop_last()) + names_decl(s.last())
    }
}

/// `p` is a list of parameters renamed from `u`, the `i`-th as `u[i].(from + i)`.
pub open spec fn params_renamed(p: Seq<String>, u: Seq<String>, from: nat) -> bool {
    &&& p.len() == u.len()
    &&& forall|i: int| 0 <= i < u.len() ==> #[trigger] p[i]@ == numbered(u[i]@, from + i as nat)
}

proof fn lemma_names_items_prefix(s: Seq<BlockItem>, n: int)
    requires
        0 <= n <= s.len(),
    ensures
        names_items(s.take(n)) <= names_items(s),
    decreases s.len(),
{
    if n < s.len() {
        assert(s.drop_last().take(n) =~= s.take(n));
        lemma_names_items_prefix(s.drop_last(), n);
    } else {
        assert(s.take(n) =~= s);
    }
}

proof fn lemma_names_decls_prefix(s: Seq<Declaration>, n: int)
    requires
        0 <= n <= s.len(),
    ensures
        names_decls(s.take(n)) <= names_decls(s),
    decreases s.len(),
{
    if n < s.len() {
        assert(s.drop_last().take(n) =~= s.take(n));
        lemma_names_decls_prefix(s.drop_last(), n);
    } else {
        assert(s.take(n) =~= s);
    }
}

// ---------------------------------------------------------------------------
// Resolution as a whole: what each construct does to the scope stack and the
// counter (`None` when it is rejected), and how its output is renamed.
// ---------------------------------------------------------------------------

pub open spec fn opt_error(e: Option<Expression>, sc: Seq<Frame>) -> Option<Seq<char>> {
    match e {
        Some(x) => expr_error(x, sc),
        None => None,
    }
}

pub open spec fn renamed_opt(r: Option<Expression>, u: Option<Expression>, sc: Seq<Frame>) -> bool {
    match (r, u) {
        (Some(x), Some(y)) => renamed_expr(x, y, sc),
        (None, None) => true,
        _ => false,
    }
}

/// `sc` with `(name, unique, linked)` added to its innermost frame.
pub open spec fn declare_in(sc: Seq<Frame>, name: Seq<char>, unique: Seq<char>, linked: bool) -> Seq<Frame> {
    sc.drop_last().push(sc.last().push((name, unique, linked)))
}

/// The innermost frame holds `name` without linkage: declaring it again there
/// is a duplicate declaration.
pub open spec fn local_clash(sc: Seq<Frame>, name: Seq<char>) -> bool {
    frame_lookup(sc.last(), name) matches Some(x) && !x.1
}

/// Parameters go into the innermost frame of `sc`, the `i`-th as `p.(c + i)`;
/// a repeated parameter is rejected.
pub open spec fn res_params(ps: Seq<String>, sc: Seq<Frame>, c: nat) -> Result<(Seq<Frame>, nat), Seq<char>>
    decreases ps.len(),
{
    if ps.len() == 0 {
        Ok((sc, c))
    } else {
        match res_params(ps.drop_last(), sc, c) {
            Ok((s1, c1)) => if frame_lookup(s1.last(), ps.last()@) is Some {
                Err("Duplicate parameter name '"@ + ps.last()@ + "' in a function"@)
            } else {
                Ok((declare_in(s1, ps.last()@, numbered(ps.last()@, c1), false), c1 + 1))
            },
            Err(m) => Err(m),
        }
    }
}

/// Resolving a declaration in the innermost frame of `sc` with counter `c`:
/// the scopes and counter afterwards, or the diagnostic of the first problem.
/// A function's parameters and body share one new frame, which is left again.
pub open spec fn res_decl(d: Declaration, sc: Seq<Frame>, c: nat, is_global: bool) -> Result<(Seq<Frame>, nat), Seq<char>>
    decreases d,
{
    match d {
        Declaration::Variable { name, init } => {
            if local_clash(sc, name@) {
                Err("Duplicate variable declaration for '"@ + name@ + "'"@)
            } else {
                let un = if is_global { name@ } else { numbered(name@, c) };
                let c2 = if is_global { c } else { c + 1 };
                let sc2 = declare_in(sc, name@, un, is_global);
                match opt_error(init, sc2) {
                    Some(m) => Err(m),
                    None => Ok((sc2, c2)),
                }
            }
        },
        Declaration::Function { name, params, body } => {
            if !is_global && body is Some {
                Err("Nested function definitions are not allowed: '"@ + name@ + "'"@)
            } else if local_clash(sc, name@) {
                Err("Duplicate declaration: '"@ + name@ + "' conflicts with a local variable."@)
            } else {
                let sc1 = declare_in(sc, name@, name@, true);
                match res_params(params@, sc1.push(Seq::empty()), c) {
                    Ok((sc2, c2)) => match body {
                        Some(b) => match res_items(b.blocks@, sc2, c2) {
                            Ok((_, c3)) => Ok((sc1, c3)),
                            Err(m) => Err(m),
                        },
                        None => Ok((sc1, c2)),
                    },
                    Err(m) => Err(m),
                }
            }
        },
    }
}

/// Resolving a statement; it leaves the scope stack as it found it, so only
/// the counter after it is returned.
pub open spec fn res_stmt(s: Statement, sc: Seq<Frame>, c: nat) -> Result<nat, Seq<char>>
    decreases s,
{
    match s {
        Statement::Return(e) => match expr_error(e, sc) {
            Some(m) => Err(m),
            None => Ok(c),
        },
        Statement::Expression(e) => match expr_error(e, sc) {
            Some(m) => Err(m),
            None => Ok(c),
        },
        Statement::If { condition, then_stat, else_stat } => match expr_error(condition, sc) {
            Some(m) => Err(m),
            None => match res_stmt(*then_stat, sc, c) {
                Ok(c1) => match else_stat {
                    Some(e) => res_stmt(*e, sc, c1),
                    None => Ok(c1),
                },
                Err(m) => Err(m),
            },
        },
        Statement::Compound(b) => match res_items(b.blocks@, sc.push(Seq::empty()), c) {
            Ok((_, c1)) => Ok(c1),
            Err(m) => Err(m),
        },
        Statement::While { condition, body } => match expr_error(condition, sc) {
            Some(m) => Err(m),
            None => res_stmt(*body, sc, c),
        },
        Statement::DoWhile { body, condition } => match expr_error(condition, sc) {
            Some(m) => Err(m),
            None => res_stmt(*body, sc, c),
        },
        Statement::For { init, condition, post, body } => {
            let sc1 = sc.push(Seq::empty());
            match res_for_init(init, sc1, c) {
                Ok((sc2, c2)) => match opt_error(condition, sc2) {
                    Some(m) => Err(m),
                    None => match opt_error(post, sc2) {
                        Some(m) => Err(m),
                        None => res_stmt(*body, sc2, c2),
                    },
                },
                Err(m) => Err(m),
            }
        },
        _ => Ok(c),
    }
}

/// The header of a `for` loop, resolved in the loop's own frame.
pub open spec fn res_for_init(init: Option<Box<BlockItem>>, sc: Seq<Frame>, c: nat) -> Result<(Seq<Frame>, nat), Seq<char>>
    decreases init,
{
    match init {
        Some(i) => res_item(*i, sc, c),
        None => Ok((sc, c)),
    }
}

pub open spec fn res_item(i: BlockItem, sc: Seq<Frame>, c: nat) -> Result<(Seq<Frame>, nat), Seq<char>>
    decreases i,
{
    match i {
        BlockItem::S(s) => match res_stmt(s, sc, c) {
            Ok(c1) => Ok((sc, c1)),
            Err(m) => Err(m),
        },
        BlockItem::D(d) => res_decl(d, sc, c, false),
    }
}

pub open spec fn res_items(s: Seq<BlockItem>, sc: Seq<Frame>, c: nat) -> Result<(Seq<Frame>, nat), Seq<char>>
    decreases s,
{
    if s.len() == 0 {
        Ok((sc, c))
    } else {
        match res_items(s.drop_last(), sc, c) {
            Ok((s1, c1)) => res_item(s.last(), s1, c1),
            Err(m) => Err(m),
        }
    }
}

/// Resolving the top-level declarations, in the global frame (the innermost of `sc`).
pub open spec fn res_decls(s: Seq<Declaration>, sc: Seq<Frame>, c: nat) -> Result<(Seq<Frame>, nat), Seq<char>>
    decreases s,
{
    if s.len() == 0 {
        Ok((sc, c))
    } else {
        match res_decls(s.drop_last(), sc, c) {
            Ok((s1, c1)) => res_decl(s.last(), s1, c1, true),
            Err(m) => Err(m),
        }
    }
}

/// `r` is statement `u` resolved in `sc` from counter `c`: every use renamed to
/// its binding, every local declaration renamed `x.N` in source order.
pub open spec fn renamed_stmt(r: Statement, u: Statement, sc: Seq<Frame>, c: nat) -> bool
    decreases u,
{
    match u {
        Statement::Return(e) => r matches Statement::Return(x) && renamed_expr(x, e, sc),
        Statement::Expression(e) => r matches Statement::Expression(x) && renamed_expr(x, e, sc),
        Statement::Empty => r is Empty,
        Statement::Break => r is Break,
        Statement::Continue => r is Continue,
        Statement::If { condition, then_stat, else_stat } => match r {
            Statement::If { condition: rc, then_stat: rt, else_stat: re } => {
                &&& renamed_expr(rc, condition, sc)
                &&& renamed_stmt(*rt, *then_stat, sc, c)
                &&& match (re, else_stat) {
                    (Some(x), Some(y)) => renamed_stmt(*x, *y, sc, res_stmt(*then_stat, sc, c)->Ok_0),
                    (None, None) => true,
                    _ => false,
                }
            },
            _ => false,
        },
        Statement::Compound(b) => match r {
            Statement::Compound(rb) => renamed_items(rb.blocks@, b.blocks@, sc.push(Seq::empty()), c),
            _ => false,
        },
        Statement::While { condition, body } => match r {
            Statement::While { condition: rc, body: rb } => renamed_expr(rc, condition, sc)
                && renamed_stmt(*rb, *body, sc, c),
            _ => false,
        },
        Statement::DoWhile { body, condition } => match r {
            Statement::DoWhile { body: rb, condition: rc } => renamed_expr(rc, condition, sc)
                && renamed_stmt(*rb, *body, sc, c),
            _ => false,
        },
        Statement::For { init, condition, post, body } => match r {
            Statement::For { init: ri, condition: rc, post: rp, body: rb } => {
                let sc1 = sc.push(Seq::empty());
                let (sc2, c2) = res_for_init(init, sc1, c)->Ok_0;
                &&& match (ri, init) {
                    (Some(x), Some(y)) => renamed_item(*x, *y, sc1, c),
                    (None, None) => true,
                    _ => false,
                }
                &&& renamed_opt(rc, condition, sc2)
                &&& renamed_opt(rp, post, sc2)
                &&& renamed_stmt(*rb, *body, sc2, c2)
            },
            _ => false,
        },
    }
}

pub open spec fn renamed_item(r: BlockItem, u: BlockItem, sc: Seq<Frame>, c: nat) -> bool
    decreases u,
{
    match u {
        BlockItem::S(s) => r matches BlockItem::S(x) && renamed_stmt(x, s, sc, c),
        BlockItem::D(d) => r matches BlockItem::D(x) && renamed_decl(x, d, sc, c, false),
    }
}

pub open spec fn renamed_items(r: Seq<BlockItem>, u: Seq<BlockItem>, sc: Seq<Frame>, c: nat) -> bool
    decreases u,
{
    &&& r.len() == u.len()
    &&& (u.len() > 0 ==> {
        &&& renamed_items(r.drop_last(), u.drop_last(), sc, c)
        &&& renamed_item(
            r.last(),
            u.last(),
            res_items(u.drop_last(), sc, c)->Ok_0.0,
            res_items(u.drop_last(), sc, c)->Ok_0.1,
        )
    })
}

/// `r` is declaration `u` resolved: top-level names are kept, a local variable
/// becomes `x.c`, parameters `p.c`, `p.(c+1)`, ..., and initializer and body are renamed.
pub open spec fn renamed_decl(r: Declaration, u: Declaration, sc: Seq<Frame>, c: nat, is_global: bool) -> bool
    decreases u,
{
    match u {
        Declaration::Variable { name, init } => match r {
            Declaration::Variable { name: rn, init: ri } => {
                let un = if is_global { name@ } else { numbered(name@, c) };
                &&& rn@ == un
                &&& renamed_opt(ri, init, declare_in(sc, name@, un, is_global))
            },
            _ => false,
        },
        Declaration::Function { name, params, body } => match r {
            Declaration::Function { name: rn, params: rp, body: rb } => {
                let sc1 = declare_in(sc, name@, name@, true);
                let (sc2, c2) = res_params(params@, sc1.push(Seq::empty()), c)->Ok_0;
                &&& rn@ == name@
                &&& params_renamed(rp@, params@, c)
                &&& match (rb, body) {
                    (Some(x), Some(y)) => renamed_items(x.blocks@, y.blocks@, sc2, c2),
                    (None, None) => true,
                    _ => false,
                }
            },
            _ => false,
        },
    }
}

pub open spec fn renamed_decls(r: Seq<Declaration>, u: Seq<Declaration>, sc: Seq<Frame>, c: nat) -> bool
    decreases u,
{
    &&& r.len() == u.len()
    &&& (u.len() > 0 ==> {
        &&& renamed_decls(r.drop_last(), u.drop_last(), sc, c)
        &&& renamed_decl(
            r.last(),
            u.last(),
            res_decls(u.drop_last(), sc, c)->Ok_0.0,
            res_decls(u.drop_last(), sc, c)->Ok_0.1,
            true,
        )
    })
}

/// Resolves every identifier to a scope-unique name: locals and parameters get
/// `name.N` with a fresh `N`, top-level functions and variables keep their name.
pub struct Validator<'a> {
    scopes: Vec<Vec<ScopeEntry>>,
    id_generator: &'a mut UniqueIdGenerator,
}

spec fn frame_view(f: Seq<ScopeEntry>) -> Frame {
    f.map(|_i, e: ScopeEntry| (e.name@, e.info.unique_name@, e.info.has_external_linkage))
}

impl<'a> Validator<'a> {
    /// The scope stack, innermost frame last.
    pub closed spec fn scopes(&self) -> Seq<Frame> {
        self.scopes@.map(|_i, f: Vec<ScopeEntry>| frame_view(f@))
    }

    /// The number the validator's id generator hands out next.
    pub closed spec fn counter(&self) -> nat {
        self.id_generator.peek()
    }

    pub fn new(id_generator: &'a mut UniqueIdGenerator) -> (r: Self)
        ensures
            r.counter() == old(id_generator).peek(),
            r.scopes().len() == 0,
    {
        Validator { scopes: Vec::new(), id_generator }
    }

    fn find_in_frame(frame: &Vec<ScopeEntry>, key: &String) -> (r: Option<IdentifierInfo>)
        ensures
            r matches Some(i) ==> frame_lookup(frame_view(frame@), key@) == Some(i.view()),
            r is None ==> frame_lookup(frame_view(frame@), key@) is None,
    {
        let mut j = frame.len();
        proof {
            assert(frame@.take(j as int) =~= frame@);
        }
        while j > 0
            invariant
                j <= frame.len(),
                frame_lookup(frame_view(frame@), key@) == frame_lookup(
                    frame_view(frame@.take(j as int)),
                    key@,
                ),
            decreases j,
        {
            proof {
                assert(frame_view(frame@.take(j as int)).drop_last() =~= frame_view(
                    frame@.take(j - 1),
                ));
            }
            if frame[j - 1].name == *key {
                return Some(frame[j - 1].info.duplicate());
            }
            j = j - 1;
        }
        proof {
            assert(frame_view(frame@.take(0)).len() == 0);
        }
        None
    }

    /// Looks `key` up from the innermost frame outwards.
    fn find_identifier(&self, key: &String) -> (r: Option<IdentifierInfo>)
        ensures
            r matches Some(i) ==> scopes_lookup(self.scopes(), key@) == Some(i.view()),
            r is None ==> scopes_lookup(self.scopes(), key@) is None,
    {
        let mut k = self.scopes.len();
        proof {
            assert(self.scopes().take(k as int) =~= self.scopes());
        }
        while k > 0
            invariant
                k <= self.scopes.len(),
                scopes_lookup(self.scopes(), key@) == scopes_lookup(
                    self.scopes().take(k as int),
                    key@,
                ),
            decreases k,
        {
            proof {
                assert(self.scopes().take(k as int).drop_last() =~= self.scopes().take(k - 1));
                assert(self.scopes().take(k as int).last() == frame_view(self.scopes@[k - 1]@));
            }
            match Self::find_in_frame(&self.scopes[k - 1], key) {
                Some(info) => {
                    return Some(info);
                },
                None => {},
            }
            k = k - 1;
        }
        None
    }

    /// Resolves every identifier of `program` in a new global frame: the
    /// result is the program renamed as `res_decls` and `renamed_decls`
    /// describe, and it fails exactly when that resolution is rejected.
    pub fn validate_program(&mut self, program: Program) -> (r: Result<Program, String>)
        requires
            old(self).counter() + names_decls(program.declarations@) < usize::MAX,
        ensures
            final(self).counter() >= old(self).counter(),
            r is Ok <==> res_decls(
                program.declarations@,
                old(self).scopes().push(Seq::empty()),
                old(self).counter(),
            ) is Ok,
            r matches Err(m) ==> res_decls(
                program.declarations@,
                old(self).scopes().push(Seq::empty()),
                old(self).counter(),
            )->Err_0 == m@,
            r matches Ok(p) ==> {
                &&& renamed_decls(
                    p.declarations@,
                    program.declarations@,
                    old(self).scopes().push(Seq::empty()),
                    old(self).counter(),
                )
                &&& final(self).counter() == res_decls(
                    program.declarations@,
                    old(self).scopes().push(Seq::empty()),
                    old(self).counter(),
                )->Ok_0.1
            },
    {
        let ghost src = program.declarations@;
        let ghost start = self.counter();
        self.enter_scope();
        let ghost sc0 = self.scopes();
        let mut validated_decls: Vec<Declaration> = Vec::new();
        proof {
            assert(src.take(0) =~= Seq::<Declaration>::empty());
        }
        for decl in it: program.declarations
            invariant
                it.seq() == src,
                start == old(self).counter(),
                sc0 == old(self).scopes().push(Seq::empty()),
                start + names_decls(src) < usize::MAX,
                self.scopes().len() > 0,
                self.scopes().len() == sc0.len(),
                start <= self.counter() <= start + names_decls(src.take(it.index() as int)),
                res_decls(src.take(it.index() as int), sc0, start) == Ok::<(Seq<Frame>, nat), Seq<char>>((self.scopes(), self.counter())),
                renamed_decls(validated_decls@, src.take(it.index() as int), sc0, start),
        {
            let ghost i = it.index() as int;
            proof {
                assert(decl == src[i]);
                assert(src.take(i + 1).drop_last() =~= src.take(i));
                assert(src.take(i + 1).last() == src[i]);
                lemma_names_decls_prefix(src, i + 1);
            }
            let ghost before = validated_decls@;
            match self.validate_declaration(decl, true) {
                Ok(d) => {
                    validated_decls.push(d);
                    proof {
                        assert(validated_decls@.drop_last() =~= before);
                    }
                },
                Err(e) => {
                    proof {
                        lemma_res_decls_prefix(src, i + 1, sc0, start);
                    }
                    return Err(e);
                },
            }
        }
        proof {
            assert(src.take(src.len() as int) =~= src);
        }
        Ok(Program { declarations: validated_decls })
    }

    fn enter_scope(&mut self)
        ensures
            final(self).scopes() == old(self).scopes().push(Seq::empty()),
            final(self).counter() == old(self).counter(),
    {
        let frame: Vec<ScopeEntry> = Vec::new();
        proof {
            assert(frame_view(frame@) =~= Seq::empty());
        }
        self.scopes.push(frame);
        proof {
            assert(final(self).scopes() =~= old(self).scopes().push(Seq::empty()));
        }
    }

    fn exit_scope(&mut self)
        requires
            old(self).scopes().len() > 0,
        ensures
            final(self).scopes() == old(self).scopes().drop_last(),
            final(self).counter() == old(self).counter(),
    {
        self.scopes.pop();
        proof {
            assert(final(self).scopes() =~= old(self).scopes().drop_last());
        }
    }

    /// Adds `name` to the innermost frame.
    fn declare(&mut self, name: String, info: IdentifierInfo)
        requires
            old(self).scopes().len() > 0,
        ensures
            final(self).scopes() == old(self).scopes().drop_last().push(
                old(self).scopes().last().push((name@, info.unique_name@, info.has_external_linkage)),
            ),
            final(self).counter() == old(self).counter(),
    {
        let ghost e = (name@, info.unique_name@, info.has_external_linkage);
        let mut frame = self.scopes.pop().unwrap();
        proof {
            assert(frame_view(frame@) == old(self).scopes().last());
        }
        frame.push(ScopeEntry { name, info });
        proof {
            assert(frame_view(frame@) =~= old(self).scopes().last().push(e));
        }
        self.scopes.push(frame);
        proof {
            assert(final(self).scopes() =~= old(self).scopes().drop_last().push(
                old(self).scopes().last().push(e),
            ));
        }
    }

    /// What `name` means in the innermost frame alone.
    fn find_in_current(&self, name: &String) -> (r: Option<IdentifierInfo>)
        requires
            self.scopes().len() > 0,
        ensures
            r matches Some(i) ==> frame_lookup(self.scopes().last(), name@) == Some(i.view()),
            r is None ==> frame_lookup(self.scopes().last(), name@) is None,
    {
        Self::find_in_frame(&self.scopes[self.scopes.len() - 1], name)
    }

    fn generate_unique_name(&mut self, source_name: &String) -> (r: String)
        requires
            old(self).counter() < usize::MAX,
        ensures
            r@ == numbered(source_name@, old(self).counter()),
            final(self).counter() == old(self).counter() + 1,
            final(self).scopes() == old(self).scopes(),
    {
        let unique_id = self.id_generator.next();
        numbered_name(source_name.as_str(), unique_id)
    }

    fn validate_declaration(&mut self, decl: Declaration, is_global: bool) -> (r: Result<
        Declaration,
        String,
    >)
        requires
            old(self).scopes().len() > 0,
            old(self).counter() + names_decl(decl) < usize::MAX,
        ensures
            old(self).counter() <= final(self).counter() <= old(self).counter() + names_decl(decl),
            r is Ok <==> res_decl(decl, old(self).scopes(), old(self).counter(), is_global) is Ok,
            r matches Err(m) ==> res_decl(decl, old(self).scopes(), old(self).counter(), is_global)->Err_0 == m@,
            r matches Ok(d) ==> {
                &&& renamed_decl(d, decl, old(self).scopes(), old(self).counter(), is_global)
                &&& (final(self).scopes(), final(self).counter()) == res_decl(
                    decl,
                    old(self).scopes(),
                    old(self).counter(),
                    is_global,
                )->Ok_0
                &&& final(self).scopes().len() == old(self).scopes().len()
                &&& final(self).scopes().drop_last() == old(self).scopes().drop_last()
            },
        decreases decl,
    {
        let ghost sc = self.scopes();
        let ghost c0 = self.counter();
        match decl {
            Declaration::Function { name, params, body } => {
                if !is_global && body.is_some() {
                    return Err(
                        quoted("Nested function definitions are not allowed: '", &name, "'"),
                    );
                }
                match self.find_in_current(&name) {
                    Some(prev) => {
                        if !prev.has_external_linkage {
                            return Err(
                                quoted(
                                    "Duplicate declaration: '",
                                    &name,
                                    "' conflicts with a local variable.",
                                ),
                            );
                        }
                    },
                    None => {},
                }
                let info = IdentifierInfo { unique_name: name.clone(), has_external_linkage: true };
                self.declare(name.clone(), info);
                let ghost outer = self.scopes();
                // Parameters and the body's own declarations share one frame.
                self.enter_scope();
                let ghost sp = self.scopes();
                let ghost src = params@;
                let mut validated_params: Vec<String> = Vec::new();
                proof {
                    assert(src.take(0) =~= Seq::<String>::empty());
                }
                for param_name in it: params
                    invariant
                        it.seq() == src,
                        c0 == old(self).counter(),
                        sc == old(self).scopes(),
                        c0 + names_decl(decl) < usize::MAX,
                        decl is Function,
                        src == (decl->Function_params)@,
                        outer == declare_in(sc, decl->Function_name@, decl->Function_name@, true),
                        sp == outer.push(Seq::empty()),
                        !(!is_global && decl->Function_body is Some),
                        !local_clash(sc, decl->Function_name@),
                        self.counter() == c0 + it.index(),
                        self.scopes().len() == outer.len() + 1,
                        self.scopes().drop_last() == outer,
                        res_params(src.take(it.index() as int), sp, c0) == Ok::<(Seq<Frame>, nat), Seq<char>>((self.scopes(), self.counter())),
                        params_renamed(validated_params@, src.take(it.index() as int), c0),
                {
                    let ghost i = it.index() as int;
                    proof {
                        assert(param_name == src[i]);
                        assert(src.take(i + 1).drop_last() =~= src.take(i));
                        assert(src.take(i + 1).last() == src[i]);
                    }
                    if self.find_in_current(&param_name).is_some() {
                        proof {
                            lemma_res_params_prefix(src, i + 1, sp, c0);
                        }
                        return Err(
                            quoted("Duplicate parameter name '", &param_name, "' in a function"),
                        );
                    }
                    let unique_param_name = self.generate_unique_name(&param_name);
                    let param_info = IdentifierInfo {
                        unique_name: unique_param_name.clone(),
                        has_external_linkage: false,
                    };
                    self.declare(param_name, param_info);
                    proof {
                        assert(self.scopes().drop_last() =~= outer);
                    }
                    validated_params.push(unique_param_name);
                }
                proof {
                    assert(src.take(src.len() as int) =~= src);
                }
                let ghost c1 = self.counter();
                let ghost sc2 = self.scopes();
                let validated_body = match body {
                    Some(block) => {
                        let ghost items_src = block.blocks@;
                        let mut validated_items: Vec<BlockItem> = Vec::new();
                        proof {
                            assert(items_src.take(0) =~= Seq::<BlockItem>::empty());
                        }
                        for item in it: block.blocks
                            invariant
                                it.seq() == items_src,
                                decl is Function,
                                decl->Function_body is Some,
                                items_src == decl->Function_body->Some_0.blocks@,
                                c0 == old(self).counter(),
                                sc == old(self).scopes(),
                                is_global,
                                !local_clash(sc, decl->Function_name@),
                                outer == declare_in(sc, decl->Function_name@, decl->Function_name@, true),
                                res_params((decl->Function_params)@, outer.push(Seq::empty()), c0) == Ok::<(Seq<Frame>, nat), Seq<char>>((sc2, c1)),
                                c0 <= c1,
                                c1 + names_items(items_src) <= c0 + names_decl(decl),
                                c1 + names_items(items_src) < usize::MAX,
                                c1 <= self.counter() <= c1 + names_items(
                                    items_src.take(it.index() as int),
                                ),
                                self.scopes().len() == outer.len() + 1,
                                self.scopes().drop_last() == outer,
                                res_items(items_src.take(it.index() as int), sc2, c1) == Ok::<(Seq<Frame>, nat), Seq<char>>(
                                    (self.scopes(), self.counter()),
                                ),
                                renamed_items(validated_items@, items_src.take(it.index() as int), sc2, c1),
                        {
                            let ghost i = it.index() as int;
                            proof {
                                assert(item == items_src[i]);
                                assert(items_src.take(i + 1).drop_last() =~= items_src.take(i));
                                assert(items_src.take(i + 1).last() == items_src[i]);
                                lemma_names_items_prefix(items_src, i + 1);
                            }
                            let ghost before = validated_items@;
                            match self.validate_block_item(item) {
                                Ok(x) => {
                                    validated_items.push(x);
                                    proof {
                                        assert(validated_items@.drop_last() =~= before);
                                    }
                                },
                                Err(e) => {
                                    proof {
                                        lemma_res_items_prefix(items_src, i + 1, sc2, c1);
                                    }
                                    return Err(e);
                                },
                            }
                        }
                        proof {
                            assert(items_src.take(items_src.len() as int) =~= items_src);
                        }
                        Some(Block { blocks: validated_items })
                    },
                    None => None,
                };
                self.exit_scope();
                proof {
                    assert(self.scopes() == outer);
                }
                Ok(Declaration::Function { name, params: validated_params, body: validated_body })
            },
            Declaration::Variable { name, init } => {
                match self.find_in_current(&name) {
                    Some(prev) => {
                        if !prev.has_external_linkage {
                            return Err(quoted("Duplicate variable declaration for '", &name, "'"));
                        }
                    },
                    None => {},
                }
                let unique_name = if is_global {
                    name.clone()
                } else {
                    self.generate_unique_name(&name)
                };
                let info = IdentifierInfo {
                    unique_name: unique_name.clone(),
                    has_external_linkage: is_global,
                };
                self.declare(name, info);
                let validated_init = self.validate_optional(init)?;
                Ok(Declaration::Variable { name: unique_name, init: validated_init })
            },
        }
    }

    /// Resolves a block in a frame of its own.
    fn validate_block(&mut self, block: Block) -> (r: Result<Block, String>)
        requires
            old(self).counter() + names_items(block.blocks@) < usize::MAX,
        ensures
            old(self).counter() <= final(self).counter() <= old(self).counter() + names_items(
                block.blocks@,
            ),
            r is Ok <==> res_items(block.blocks@, old(self).scopes().push(Seq::empty()), old(self).counter()) is Ok,
            r matches Err(m) ==> res_items(block.blocks@, old(self).scopes().push(Seq::empty()), old(self).counter())->Err_0 == m@,
            r matches Ok(b) ==> {
                &&& final(self).scopes() == old(self).scopes()
                &&& final(self).counter() == res_items(
                    block.blocks@,
                    old(self).scopes().push(Seq::empty()),
                    old(self).counter(),
                )->Ok_0.1
                &&& renamed_items(b.blocks@, block.blocks@, old(self).scopes().push(Seq::empty()), old(self).counter())
            },
        decreases block,
    {
        let ghost outer = self.scopes();
        let ghost c0 = self.counter();
        self.enter_scope();
        let ghost sc0 = self.scopes();
        let ghost src = block.blocks@;
        let mut validated_items: Vec<BlockItem> = Vec::new();
        proof {
            assert(src.take(0) =~= Seq::<BlockItem>::empty());
        }
        for item in it: block.blocks
            invariant
                it.seq() == src,
                src == block.blocks@,
                c0 == old(self).counter(),
                outer == old(self).scopes(),
                sc0 == outer.push(Seq::empty()),
                c0 + names_items(src) < usize::MAX,
                c0 <= self.counter() <= c0 + names_items(src.take(it.index() as int)),
                self.scopes().len() == outer.len() + 1,
                self.scopes().drop_last() == outer,
                res_items(src.take(it.index() as int), sc0, c0) == Ok::<(Seq<Frame>, nat), Seq<char>>((self.scopes(), self.counter())),
                renamed_items(validated_items@, src.take(it.index() as int), sc0, c0),
        {
            let ghost i = it.index() as int;
            proof {
                assert(item == src[i]);
                assert(src.take(i + 1).drop_last() =~= src.take(i));
                assert(src.take(i + 1).last() == src[i]);
                lemma_names_items_prefix(src, i + 1);
            }
            let ghost before = validated_items@;
            match self.validate_block_item(item) {
                Ok(x) => {
                    validated_items.push(x);
                    proof {
                        assert(validated_items@.drop_last() =~= before);
                    }
                },
                Err(e) => {
                    proof {
                        lemma_res_items_prefix(src, i + 1, sc0, c0);
                    }
                    return Err(e);
                },
            }
        }
        proof {
            assert(src.take(src.len() as int) =~= src);
        }
        self.exit_scope();
        Ok(Block { blocks: validated_items })
    }

    fn validate_block_item(&mut self, item: BlockItem) -> (r: Result<BlockItem, String>)
        requires
            old(self).scopes().len() > 0,
            old(self).counter() + names_item(item) < usize::MAX,
        ensures
            old(self).counter() <= final(self).counter() <= old(self).counter() + names_item(item),
            r is Ok <==> res_item(item, old(self).scopes(), old(self).counter()) is Ok,
            r matches Err(m) ==> res_item(item, old(self).scopes(), old(self).counter())->Err_0 == m@,
            r matches Ok(x) ==> {
                &&& renamed_item(x, item, old(self).scopes(), old(self).counter())
                &&& (final(self).scopes(), final(self).counter()) == res_item(
                    item,
                    old(self).scopes(),
                    old(self).counter(),
                )->Ok_0
                &&& final(self).scopes().len() == old(self).scopes().len()
                &&& final(self).scopes().drop_last() == old(self).scopes().drop_last()
            },
        decreases item,
    {
        match item {
            BlockItem::S(stmt) => Ok(BlockItem::S(self.validate_statement(stmt)?)),
            BlockItem::D(decl) => Ok(BlockItem::D(self.validate_declaration(decl, false)?)),
        }
    }

    fn validate_optional(&mut self, expr: Option<Expression>) -> (r: Result<Option<Expression>, String>)
        ensures
            final(self).scopes() == old(self).scopes(),
            final(self).counter() == old(self).counter(),
            r is Ok <==> opt_error(expr, old(self).scopes()) is None,
            r matches Err(m) ==> opt_error(expr, old(self).scopes()) == Some(m@),
            r matches Ok(x) ==> renamed_opt(x, expr, old(self).scopes()),
    {
        match expr {
            Some(e) => Ok(Some(self.validate_expression(e)?)),
            None => Ok(None),
        }
    }

    fn validate_statement(&mut self, stmt: Statement) -> (r: Result<Statement, String>)
        requires
            old(self).counter() + names_stmt(stmt) < usize::MAX,
        ensures
            old(self).counter() <= final(self).counter() <= old(self).counter() + names_stmt(stmt),
            r is Ok <==> res_stmt(stmt, old(self).scopes(), old(self).counter()) is Ok,
            r matches Err(m) ==> res_stmt(stmt, old(self).scopes(), old(self).counter())->Err_0 == m@,
            r matches Ok(s) ==> {
                &&& renamed_stmt(s, stmt, old(self).scopes(), old(self).counter())
                &&& final(self).scopes() == old(self).scopes()
                &&& final(self).counter() == res_stmt(stmt, old(self).scopes(), old(self).counter())->Ok_0
            },
        decreases stmt,
    {
        match stmt {
            Statement::Return(expr) => Ok(Statement::Return(self.validate_expression(expr)?)),
            Statement::Expression(expr) => Ok(Statement::Expression(self.validate_expression(expr)?)),
            Statement::Empty => Ok(Statement::Empty),
            Statement::If { condition, then_stat, else_stat } => {
                let validated_condition = self.validate_expression(condition)?;
                let validated_then = self.validate_statement(*then_stat)?;
                let validated_else = match else_stat {
                    Some(else_s) => Some(Box::new(self.validate_statement(*else_s)?)),
                    None => None,
                };
                Ok(Statement::If {
                    condition: validated_condition,
                    then_stat: Box::new(validated_then),
                    else_stat: validated_else,
                })
            },
            Statement::Compound(b) => Ok(Statement::Compound(self.validate_block(b)?)),
            Statement::While { condition, body } => {
                let validated_condition = self.validate_expression(condition)?;
                let validated_body = self.validate_statement(*body)?;
                Ok(Statement::While { condition: validated_condition, body: Box::new(validated_body) })
            },
            Statement::DoWhile { body, condition } => {
                let validated_condition = self.validate_expression(condition)?;
                let validated_body = self.validate_statement(*body)?;
                Ok(Statement::DoWhile { body: Box::new(validated_body), condition: validated_condition })
            },
            Statement::Break => Ok(Statement::Break),
            Statement::Continue => Ok(Statement::Continue),
            Statement::For { init, condition, post, body } => {
                // The header gets a frame of its own, so its variable is gone after the loop.
                let ghost outer = self.scopes();
                self.enter_scope();
                let ghost sc1 = self.scopes();
                let ghost c0 = self.counter();
                let ghost header = res_for_init(init, sc1, c0);
                let validated_init = match init {
                    Some(item) => match self.validate_block_item(*item) {
                        Ok(x) => Some(Box::new(x)),
                        Err(e) => {
                            return Err(e);
                        },
                    },
                    None => None,
                };
                proof {
                    assert(header == Ok::<(Seq<Frame>, nat), Seq<char>>((self.scopes(), self.counter())));
                }
                let validated_condition = match self.validate_optional(condition) {
                    Ok(x) => x,
                    Err(e) => {
                        return Err(e);
                    },
                };
                let validated_post = match self.validate_optional(post) {
                    Ok(x) => x,
                    Err(e) => {
                        return Err(e);
                    },
                };
                let validated_body = Box::new(self.validate_statement(*body)?);
                proof {
                    assert(self.scopes().drop_last() == outer);
                }
                self.exit_scope();
                Ok(Statement::For {
                    init: validated_init,
                    condition: validated_condition,
                    post: validated_post,
                    body: validated_body,
                })
            },
        }
    }

    fn validate_expression(&mut self, expr: Expression) -> (r: Result<Expression, String>)
        ensures
            final(self).scopes() == old(self).scopes(),
            final(self).counter() == old(self).counter(),
            r is Ok <==> resolves_expr(expr, old(self).scopes()),
            r is Ok ==> expr_error(expr, old(self).scopes()) is None,
            r matches Err(m) ==> expr_error(expr, old(self).scopes()) == Some(m@),
            r matches Ok(e) ==> renamed_expr(e, expr, old(self).scopes()),
        decreases expr,
    {
        match expr {
            Expression::Constant(c) => Ok(Expression::Constant(c)),
            Expression::Var(name) => {
                match self.find_identifier(&name) {
                    Some(info) => Ok(Expression::Var(info.unique_name)),
                    None => Err(quoted("Use of undeclared variable '", &name, "'")),
                }
            },
            Expression::FunctionCall { name, args } => {
                let resolved_name = match self.find_identifier(&name) {
                    Some(info) => {
                        if !info.has_external_linkage {
                            return Err(
                                quoted("'", &name, "' is a variable and cannot be called as a function"),
                            );
                        }
                        info.unique_name
                    },
                    None => {
                        return Err(quoted("Call to undeclared function '", &name, "'"));
                    },
                };
                let ghost src = args@;
                let ghost sc = self.scopes();
                let mut validated_args: Vec<Expression> = Vec::new();
                proof {
                    assert(src.take(0) =~= Seq::<Expression>::empty());
                }
                for arg in it: args
                    invariant
                        it.seq() == src,
                        expr is FunctionCall,
                        src == (expr->args)@,
                        scopes_lookup(sc, (expr->name)@) matches Some((_, linked)) && linked,
                        sc == old(self).scopes(),
                        self.scopes() == sc,
                        self.counter() == old(self).counter(),
                        resolves_args(src.take(it.index() as int), sc),
                        args_error(src.take(it.index() as int), sc) is None,
                        renamed_args(validated_args@, src.take(it.index() as int), sc),
                {
                    let ghost i = it.index() as int;
                    let ghost before = validated_args@;
                    proof {
                        assert(arg == src[i]);
                        assert(src.take(i + 1).drop_last() =~= src.take(i));
                        assert(src.take(i + 1).last() == src[i]);
                    }
                    match self.validate_expression(arg) {
                        Ok(v) => {
                            validated_args.push(v);
                            proof {
                                assert(validated_args@.drop_last() =~= before);
                            }
                        },
                        Err(e) => {
                            proof {
                                lemma_args_unresolved_prefix(src, i + 1, sc);
                                lemma_args_error_prefix(src, i + 1, sc);
                            }
                            return Err(e);
                        },
                    }
                }
                proof {
                    assert(src.take(src.len() as int) =~= src);
                }
                Ok(Expression::FunctionCall { name: resolved_name, args: validated_args })
            },
            Expression::Assign { left, right } => {
                if !matches!(*left, Expression::Var(_)) {
                    proof {
                        reveal_strlit("Invalid l-value for assignment");
                    }
                    return Err(String::from_str("Invalid l-value for assignment"));
                }
                let validated_left = self.validate_expression(*left)?;
                let validated_right = self.validate_expression(*right)?;
                Ok(Expression::Assign { left: Box::new(validated_left), right: Box::new(validated_right) })
            },
            Expression::Unary { operator, expression } => {
                let validated_expr = self.validate_expression(*expression)?;
                Ok(Expression::Unary { operator, expression: Box::new(validated_expr) })
            },
            Expression::Binary { operator, left, right } => {
                let validated_left = self.validate_expression(*left)?;
                let validated_right = self.validate_expression(*right)?;
                Ok(Expression::Binary {
                    operator,
                    left: Box::new(validated_left),
                    right: Box::new(validated_right),
                })
            },
            Expression::Conditional { condition, left, right } => {
                let validated_cond = self.validate_expression(*condition)?;
                let validated_then = self.validate_expression(*left)?;
                let validated_else = self.validate_expression(*right)?;
                Ok(Expression::Conditional {
                    condition: Box::new(validated_cond),
                    left: Box::new(validated_then),
                    right: Box::new(validated_else),
                })
            },
        }
    }
}

/// `prefix`, then `name`, then `suffix`: the text of a diagnostic about `name`.
pub fn quoted(prefix: &str, name: &String, suffix: &str) -> (r: String)
    ensures
        r@ == prefix@ + name@ + suffix@,
{
    let mut s = String::from_str(prefix);
    s.append(name.as_str());
    s.append(suffix);
    s
}

proof fn lemma_res_items_prefix(s: Seq<BlockItem>, n: int, sc: Seq<Frame>, c: nat)
    requires
        0 < n <= s.len(),
        res_items(s.take(n), sc, c) is Err,
    ensures
        res_items(s, sc, c) == res_items(s.take(n), sc, c),
    decreases s.len(),
{
    if n < s.len() {
        assert(s.drop_last().take(n) =~= s.take(n));
        lemma_res_items_prefix(s.drop_last(), n, sc, c);
    } else {
        assert(s.take(n) =~= s);
    }
}

proof fn lemma_res_decls_prefix(s: Seq<Declaration>, n: int, sc: Seq<Frame>, c: nat)
    requires
        0 < n <= s.len(),
        res_decls(s.take(n), sc, c) is Err,
    ensures
        res_decls(s, sc, c) == res_decls(s.take(n), sc, c),
    decreases s.len(),
{
    if n < s.len() {
        assert(s.drop_last().take(n) =~= s.take(n));
        lemma_res_decls_prefix(s.drop_last(), n, sc, c);
    } else {
        assert(s.take(n) =~= s);
    }
}

proof fn lemma_res_params_prefix(s: Seq<String>, n: int, sc: Seq<Frame>, c: nat)
    requires
        0 < n <= s.len(),
        res_params(s.take(n), sc, c) is Err,
    ensures
        res_params(s, sc, c) == res_params(s.take(n), sc, c),
    decreases s.len(),
{
    if n < s.len() {
        assert(s.drop_last().take(n) =~= s.take(n));
        lemma_res_params_prefix(s.drop_last(), n, sc, c);
    } else {
        assert(s.take(n) =~= s);
    }
}

proof fn lemma_args_error_prefix(s: Seq<Expression>, n: int, sc: Seq<Frame>)
    requires
        0 < n <= s.len(),
        args_error(s.take(n), sc) is Some,
    ensures
        args_error(s, sc) == args_error(s.take(n), sc),
    decreases s.len(),
{
    if n < s.len() {
        assert(s.drop_last().take(n) =~= s.take(n));
        lemma_args_error_prefix(s.drop_last(), n, sc);
    } else {
        assert(s.take(n) =~= s);
    }
}

proof fn lemma_args_unresolved_prefix(s: Seq<Expression>, n: int, sc: Seq<Frame>)
    requires
        0 < n <= s.len(),
        !resolves_args(s.take(n), sc),
    ensures
        !resolves_args(s, sc),
    decreases s.len(),
{
    if n < s.len() {
        assert(s.drop_last().take(n) =~= s.take(n));
        lemma_args_unresolved_prefix(s.drop_last(), n, sc);
    } else {
        assert(s.take(n) =~= s);
    }
}

} // verus!
