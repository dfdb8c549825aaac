use vstd::prelude::*;
use vstd::string::*;

use crate::ast::unchecked::{Block, BlockItem, Declaration, Expression, Program, Statement};
use crate::common::{decimal, decimal_string};
use crate::semantics::validator::quoted;

verus! {

/// The kind of an identifier: a scalar `int`, or a function of some arity.
#[derive(Debug, Clone, Copy, PartialEq, Eq, Structural)]
pub enum CType {
    Int,
    Function { param_count: usize },
}

/// What the symbol table knows of an identifier.
#[derive(Debug, Clone, Copy, PartialEq, Eq, Structural)]
pub struct Symbol {
    pub c_type: CType,
    /// For a function: whether a body has been seen.
    pub defined: bool,
}

struct SymbolEntry {
    name: String,
    symbol: Symbol,
}

/// The table as a list of (name, symbol); the latest entry for a name counts.
pub type Table = Seq<(Seq<char>, Symbol)>;

pub open spec fn table_lookup(t: Table, key: Seq<char>) -> Option<Symbol>
    decreases t.len(),
{
    if t.len() == 0 {
        None
    } else if t.last().0 == key {
        Some(t.last().1)
    } else {
        table_lookup(t.drop_last(), key)
    }
}

/// The diagnostic of the first kind or arity problem in `e` (operands in
/// evaluation order), or `None`.
pub open spec fn kind_error(e: Expression, t: Table) -> Option<Seq<char>>
    decreases e,
{
    match e {
        Expression::Constant(_) => None,
        Expression::Var(n) => match table_lookup(t, n@) {
            None => Some("Internal error: undeclared identifier '"@ + n@ + "' after validation pass"@),
            Some(s) => if s.c_type != CType::Int {
                Some("Function '"@ + n@ + "' used as a variable"@)
            } else {
                None
            },
        },
        Expression::Unary { expression, .. } => kind_error(*expression, t),
        Expression::Binary { left, right, .. } => match kind_error(*left, t) {
            Some(m) => Some(m),
            None => kind_error(*right, t),
        },
        Expression::Assign { left, right } => match kind_error(*left, t) {
            Some(m) => Some(m),
            None => kind_error(*right, t),
        },
        Expression::Conditional { condition, left, right } => match kind_error(*condition, t) {
            Some(m) => Some(m),
            None => match kind_error(*left, t) {
                Some(m) => Some(m),
                None => kind_error(*right, t),
            },
        },
        Expression::FunctionCall { name, args } => match table_lookup(t, name@) {
            None => Some("Internal error: undeclared identifier '"@ + name@ + "' after validation pass"@),
            Some(s) => match s.c_type {
                CType::Int => Some("Variable '"@ + name@ + "' used as a function"@),
                CType::Function { param_count } => if args@.len() != param_count {
                    Some(
                        "Function '"@ + name@ + "' called with "@ + decimal(args@.len()) + " arguments, but expects "@
                            + decimal(param_count as nat),
                    )
                } else {
                    args_kind_error(args@, t)
                },
            },
        },
    }
}

pub open spec fn args_kind_error(args: Seq<Expression>, t: Table) -> Option<Seq<char>>
    decreases args,
{
    if args.len() == 0 {
        None
    } else {
        match args_kind_error(args.drop_last(), t) {
            Some(m) => Some(m),
            None => kind_error(args.last(), t),
        }
    }
}

/// Every variable use names a scalar and every call names a function and
/// passes as many arguments as it declares.
pub open spec fn kinds_ok(e: Expression, t: Table) -> bool
    decreases e,
{
    match e {
        Expression::Constant(_) => true,
        Expression::Var(n) => table_lookup(t, n@) matches Some(s) && s.c_type is Int,
        Expression::Unary { expression, .. } => kinds_ok(*expression, t),
        Expression::Binary { left, right, .. } => kinds_ok(*left, t) && kinds_ok(*right, t),
        Expression::Assign { left, right } => kinds_ok(*left, t) && kinds_ok(*right, t),
        Expression::Conditional { condition, left, right } => {
            &&& kinds_ok(*condition, t)
            &&& kinds_ok(*left, t)
            &&& kinds_ok(*right, t)
        },
        Expression::FunctionCall { name, args } => {
            &&& table_lookup(t, name@) matches Some(s) && s.c_type == (CType::Function {
                param_count: args@.len() as usize,
            })
            &&& args_kinds_ok(args@, t)
        },
    }
}

pub open spec fn args_kinds_ok(args: Seq<Expression>, t: Table) -> bool
    decreases args,
{
    args.len() > 0 ==> args_kinds_ok(args.drop_last(), t) && kinds_ok(args.last(), t)
}

/// `t` without any entry for `k`.
pub open spec fn remove_key(t: Table, k: Seq<char>) -> Table
    decreases t.len(),
{
    if t.len() == 0 {
        t
    } else if t.last().0 == k {
        remove_key(t.drop_last(), k)
    } else {
        remove_key(t.drop_last(), k).push(t.last())
    }
}

/// `t` with parameters `ps` added as scalars, in order.
pub open spec fn insert_params(t: Table, ps: Seq<String>) -> Table
    decreases ps.len(),
{
    if ps.len() == 0 {
        t
    } else {
        insert_params(t, ps.drop_last()).push((ps.last()@, Symbol { c_type: CType::Int, defined: true }))
    }
}

/// `t` with the entries of parameters `ps` dropped, in order.
pub open spec fn remove_params(t: Table, ps: Seq<String>) -> Table
    decreases ps.len(),
{
    if ps.len() == 0 {
        t
    } else {
        remove_key(remove_params(t, ps.drop_last()), ps.last()@)
    }
}

pub open spec fn opt_kind_error(e: Option<Expression>, t: Table) -> Option<Seq<char>> {
    match e {
        Some(x) => kind_error(x, t),
        None => None,
    }
}

/// Checking a declaration against table `t`: the table afterwards, or the
/// diagnostic of an incompatible redeclaration, a second definition, or the
/// first problem of the body or initializer. A function's parameters are
/// scalars while its body is checked and are dropped afterwards.
pub open spec fn chk_decl(d: Declaration, t: Table) -> Result<Table, Seq<char>>
    decreases d,
{
    match d {
        Declaration::Function { name, params, body } => {
            let ft = CType::Function { param_count: params@.len() as usize };
            let prior = table_lookup(t, name@);
            let defined = prior matches Some(s) && s.defined;
            if prior matches Some(s) && s.c_type != ft {
                Err("Incompatible declaration for function '"@ + name@ + "'"@)
            } else if defined && body is Some {
                Err("Function '"@ + name@ + "' is defined more than once"@)
            } else {
                let t1 = t.push((name@, Symbol { c_type: ft, defined: defined || body is Some }));
                match body {
                    Some(b) => match chk_items(b.blocks@, insert_params(t1, params@)) {
                        Ok(t3) => Ok(remove_params(t3, params@)),
                        Err(m) => Err(m),
                    },
                    None => Ok(t1),
                }
            }
        },
        Declaration::Variable { name, init } => {
            let t1 = t.push((name@, Symbol { c_type: CType::Int, defined: true }));
            match opt_kind_error(init, t1) {
                Some(m) => Err(m),
                None => Ok(t1),
            }
        },
    }
}

pub open spec fn chk_stmt(s: Statement, t: Table) -> Result<Table, Seq<char>>
    decreases s,
{
    match s {
        Statement::Return(e) => match kind_error(e, t) {
            Some(m) => Err(m),
            None => Ok(t),
        },
        Statement::Expression(e) => match kind_error(e, t) {
            Some(m) => Err(m),
            None => Ok(t),
        },
        Statement::If { condition, then_stat, else_stat } => match kind_error(condition, t) {
            Some(m) => Err(m),
            None => match chk_stmt(*then_stat, t) {
                Ok(t1) => match else_stat {
                    Some(e) => chk_stmt(*e, t1),
                    None => Ok(t1),
                },
                Err(m) => Err(m),
            },
        },
        Statement::Compound(b) => chk_items(b.blocks@, t),
        Statement::For { init, condition, post, body } => match chk_for_init(init, t) {
            Ok(t1) => match opt_kind_error(condition, t1) {
                Some(m) => Err(m),
                None => match opt_kind_error(post, t1) {
                    Some(m) => Err(m),
                    None => chk_stmt(*body, t1),
                },
            },
            Err(m) => Err(m),
        },
        Statement::While { condition, body } => match kind_error(condition, t) {
            Some(m) => Err(m),
            None => chk_stmt(*body, t),
        },
        Statement::DoWhile { body, condition } => match chk_stmt(*body, t) {
            Ok(t1) => match kind_error(condition, t1) {
                Some(m) => Err(m),
                None => Ok(t1),
            },
            Err(m) => Err(m),
        },
        _ => Ok(t),
    }
}

pub open spec fn chk_for_init(init: Option<Box<BlockItem>>, t: Table) -> Result<Table, Seq<char>>
    decreases init,
{
    match init {
        Some(i) => chk_item(*i, t),
        None => Ok(t),
    }
}

pub open spec fn chk_item(i: BlockItem, t: Table) -> Result<Table, Seq<char>>
    decreases i,
{
    match i {
        BlockItem::S(s) => chk_stmt(s, t),
        BlockItem::D(d) => chk_decl(d, t),
    }
}

pub open spec fn chk_items(s: Seq<BlockItem>, t: Table) -> Result<Table, Seq<char>>
    decreases s,
{
    if s.len() == 0 {
        Ok(t)
    } else {
        match chk_items(s.drop_last(), t) {
            Ok(t1) => chk_item(s.last(), t1),
            Err(m) => Err(m),
        }
    }
}

/// Checking the top-level declarations in order.
pub open spec fn chk_decls(s: Seq<Declaration>, t: Table) -> Result<Table, Seq<char>>
    decreases s,
{
    if s.len() == 0 {
        Ok(t)
    } else {
        match chk_decls(s.drop_last(), t) {
            Ok(t1) => chk_decl(s.last(), t1),
            Err(m) => Err(m),
        }
    }
}

/// Checks arity and kind rules over a program whose names are already unique.
pub struct TypeChecker {
    symbols: Vec<SymbolEntry>,
}

spec fn entries_view(s: Seq<SymbolEntry>) -> Table {
    s.map(|_i, e: SymbolEntry| (e.name@, e.symbol))
}

impl TypeChecker {
    /// The symbol table.
    pub closed spec fn table(&self) -> Table {
        entries_view(self.symbols@)
    }

    pub fn new() -> (r: Self)
        ensures
            r.table().len() == 0,
    {
        TypeChecker { symbols: Vec::new() }
    }

    /// What the table records for `name`.
    pub fn symbol(&self, name: &String) -> (r: Option<Symbol>)
        ensures
            r == table_lookup(self.table(), name@),
    {
        let mut j = self.symbols.len();
        proof {
            assert(self.table().take(j as int) =~= self.table());
        }
        while j > 0
            invariant
                j <= self.symbols.len(),
                table_lookup(self.table(), name@) == table_lookup(self.table().take(j as int), name@),
            decreases j,
        {
            proof {
                assert(self.table().take(j as int).drop_last() =~= self.table().take(j - 1));
            }
            if self.symbols[j - 1].name == *name {
                return Some(self.symbols[j - 1].symbol);
            }
            j = j - 1;
        }
        None
    }

    fn insert(&mut self, name: String, symbol: Symbol)
        ensures
            final(self).table() == old(self).table().push((name@, symbol)),
    {
        let ghost n = name@;
        self.symbols.push(SymbolEntry { name, symbol });
        proof {
            assert(final(self).table() =~= old(self).table().push((n, symbol)));
        }
    }

    /// Drops every entry for `name`.
    fn remove(&mut self, name: &String)
        ensures
            final(self).table() == remove_key(old(self).table(), name@),
    {
        let mut kept: Vec<SymbolEntry> = Vec::new();
        let ghost src = self.table();
        let mut old_symbols: Vec<SymbolEntry> = Vec::new();
        core::mem::swap(&mut old_symbols, &mut self.symbols);
        proof {
            assert(entries_view(old_symbols@) == src);
            assert(src.take(0) =~= Table::empty());
        }
        for e in it: old_symbols
            invariant
                it.seq().len() == src.len(),
                forall|i: int| 0 <= i < src.len() ==> #[trigger] entries_view(it.seq())[i] == src[i],
                entries_view(kept@) == remove_key(src.take(it.index() as int), name@),
        {
            let ghost i = it.index() as int;
            proof {
                assert(e == it.seq()[i]);
                assert(entries_view(it.seq())[i] == src[i]);
                assert(src.take(i + 1).drop_last() =~= src.take(i));
                assert(src.take(i + 1).last() == src[i]);
            }
            if e.name != *name {
                let ghost before = kept@;
                kept.push(e);
                proof {
                    assert(entries_view(kept@) =~= entries_view(before).push(src[i]));
                }
            }
        }
        proof {
            assert(src.take(src.len() as int) =~= src);
        }
        self.symbols = kept;
    }

    /// Checks every declaration of `prog` in order, filling the symbol table;
    /// the first error ends the check. It succeeds exactly when `chk_decls`
    /// does, leaving the table that `chk_decls` gives.
    pub fn check_program(&mut self, prog: &Program) -> (r: Result<(), String>)
        ensures
            r is Ok <==> chk_decls(prog.declarations@, old(self).table()) is Ok,
            r matches Err(m) ==> chk_decls(prog.declarations@, old(self).table())->Err_0 == m@,
            r is Ok ==> final(self).table() == chk_decls(prog.declarations@, old(self).table())->Ok_0,
    {
        let ghost src = prog.declarations@;
        let ghost t0 = self.table();
        let mut i: usize = 0;
        proof {
            assert(src.take(0) =~= Seq::<Declaration>::empty());
        }
        while i < prog.declarations.len()
            invariant
                i <= prog.declarations.len(),
                src == prog.declarations@,
                t0 == old(self).table(),
                chk_decls(src.take(i as int), t0) == Ok::<Table, Seq<char>>(self.table()),
            decreases prog.declarations.len() - i,
        {
            proof {
                assert(src.take(i + 1).drop_last() =~= src.take(i as int));
                assert(src.take(i + 1).last() == src[i as int]);
            }
            match self.check_declaration(&prog.declarations[i]) {
                Ok(()) => {},
                Err(e) => {
                    proof {
                        lemma_chk_decls_prefix(src, i + 1, t0);
                    }
                    return Err(e);
                },
            }
            i = i + 1;
        }
        proof {
            assert(src.take(src.len() as int) =~= src);
        }
        Ok(())
    }

    /// Checks one declaration against the table: succeeds exactly when
    /// `chk_decl` does, leaving the table that it gives.
    pub fn check_declaration(&mut self, decl: &Declaration) -> (r: Result<(), String>)
        ensures
            r is Ok <==> chk_decl(*decl, old(self).table()) is Ok,
            r matches Err(m) ==> chk_decl(*decl, old(self).table())->Err_0 == m@,
            r is Ok ==> final(self).table() == chk_decl(*decl, old(self).table())->Ok_0,
        decreases decl,
    {
        match decl {
            Declaration::Function { name, params, body } => {
                let param_count = params.len();
                let has_body = body.is_some();
                let fun_type = CType::Function { param_count };
                let mut already_defined = false;
                match self.symbol(name) {
                    Some(old_symbol) => {
                        if old_symbol.c_type != fun_type {
                            return Err(quoted("Incompatible declaration for function '", name, "'"));
                        }
                        already_defined = old_symbol.defined;
                    },
                    None => {},
                }
                if already_defined && has_body {
                    return Err(quoted("Function '", name, "' is defined more than once"));
                }
                self.insert(name.clone(), Symbol { c_type: fun_type, defined: already_defined || has_body });
                let ghost t1 = self.table();
                match body {
                    Some(block) => {
                        let mut k: usize = 0;
                        proof {
                            assert(params@.take(0) =~= Seq::<String>::empty());
                        }
                        while k < params.len()
                            invariant
                                k <= params.len(),
                                self.table() == insert_params(t1, params@.take(k as int)),
                            decreases params.len() - k,
                        {
                            proof {
                                assert(params@.take(k + 1).drop_last() =~= params@.take(k as int));
                            }
                            self.insert(params[k].clone(), Symbol { c_type: CType::Int, defined: true });
                            k = k + 1;
                        }
                        proof {
                            assert(params@.take(params.len() as int) =~= params@);
                        }
                        self.check_block(block)?;
                        let ghost t3 = self.table();
                        let mut k: usize = 0;
                        while k < params.len()
                            invariant
                                k <= params.len(),
                                self.table() == remove_params(t3, params@.take(k as int)),
                            decreases params.len() - k,
                        {
                            proof {
                                assert(params@.take(k + 1).drop_last() =~= params@.take(k as int));
                            }
                            self.remove(&params[k]);
                            k = k + 1;
                        }
                        proof {
                            assert(params@.take(params.len() as int) =~= params@);
                        }
                    },
                    None => {},
                }
                Ok(())
            },
            Declaration::Variable { name, init } => {
                self.insert(name.clone(), Symbol { c_type: CType::Int, defined: true });
                match init {
                    Some(init_expr) => self.check_expression(init_expr),
                    None => Ok(()),
                }
            },
        }
    }

    fn check_block(&mut self, block: &Block) -> (r: Result<(), String>)
        ensures
            r is Ok <==> chk_items(block.blocks@, old(self).table()) is Ok,
            r matches Err(m) ==> chk_items(block.blocks@, old(self).table())->Err_0 == m@,
            r is Ok ==> final(self).table() == chk_items(block.blocks@, old(self).table())->Ok_0,
        decreases block,
    {
        let ghost t0 = self.table();
        let mut i: usize = 0;
        proof {
            assert(block.blocks@.take(0) =~= Seq::<BlockItem>::empty());
        }
        while i < block.blocks.len()
            invariant
                i <= block.blocks.len(),
                t0 == old(self).table(),
                chk_items(block.blocks@.take(i as int), t0) == Ok::<Table, Seq<char>>(self.table()),
            decreases block.blocks.len() - i,
        {
            proof {
                assert(block.blocks@.take(i + 1).drop_last() =~= block.blocks@.take(i as int));
                assert(block.blocks@.take(i + 1).last() == block.blocks@[i as int]);
            }
            match self.check_block_item(&block.blocks[i]) {
                Ok(()) => {},
                Err(e) => {
                    proof {
                        lemma_chk_items_prefix(block.blocks@, i + 1, t0);
                    }
                    return Err(e);
                },
            }
            i = i + 1;
        }
        proof {
            assert(block.blocks@.take(block.blocks.len() as int) =~= block.blocks@);
        }
        Ok(())
    }

    fn check_block_item(&mut self, item: &BlockItem) -> (r: Result<(), String>)
        ensures
            r is Ok <==> chk_item(*item, old(self).table()) is Ok,
            r matches Err(m) ==> chk_item(*item, old(self).table())->Err_0 == m@,
            r is Ok ==> final(self).table() == chk_item(*item, old(self).table())->Ok_0,
        decreases item,
    {
        match item {
            BlockItem::S(stmt) => {
                let r = self.check_statement(stmt);
                r
            },
            BlockItem::D(decl) => {
                let r = self.check_declaration(decl);
                r
            },
        }
    }

    fn check_optional(&mut self, expr: &Option<Expression>) -> (r: Result<(), String>)
        ensures
            final(self).table() == old(self).table(),
            r is Ok <==> opt_kind_error(*expr, old(self).table()) is None,
            r matches Err(m) ==> opt_kind_error(*expr, old(self).table()) == Some(m@),
    {
        match expr {
            Some(e) => self.check_expression(e),
            None => Ok(()),
        }
    }

    fn check_statement(&mut self, stmt: &Statement) -> (r: Result<(), String>)
        ensures
            r is Ok <==> chk_stmt(*stmt, old(self).table()) is Ok,
            r matches Err(m) ==> chk_stmt(*stmt, old(self).table())->Err_0 == m@,
            r is Ok ==> final(self).table() == chk_stmt(*stmt, old(self).table())->Ok_0,
        decreases stmt,
    {
        match stmt {
            Statement::Return(expr) => self.check_expression(expr),
            Statement::Expression(expr) => self.check_expression(expr),
            Statement::If { condition, then_stat, else_stat } => {
                self.check_expression(condition)?;
                self.check_statement(then_stat)?;
                match else_stat {
                    Some(else_s) => self.check_statement(else_s),
                    None => Ok(()),
                }
            },
            Statement::Compound(block) => self.check_block(block),
            Statement::For { init, condition, post, body } => {
                let ghost t0 = self.table();
                match init {
                    Some(init_item) => self.check_block_item(init_item)?,
                    None => {},
                }
                proof {
                    assert(chk_for_init(*init, t0) == Ok::<Table, Seq<char>>(self.table()));
                }
                self.check_optional(condition)?;
                self.check_optional(post)?;
                self.check_statement(body)
            },
            Statement::While { condition, body } => {
                self.check_expression(condition)?;
                self.check_statement(body)
            },
            Statement::DoWhile { body, condition } => {
                self.check_statement(body)?;
                self.check_expression(condition)
            },
            Statement::Empty => Ok(()),
            Statement::Break => Ok(()),
            Statement::Continue => Ok(()),
        }
    }

    fn check_expression(&mut self, expr: &Expression) -> (r: Result<(), String>)
        ensures
            final(self).table() == old(self).table(),
            r is Ok <==> kinds_ok(*expr, old(self).table()),
            r is Ok ==> kind_error(*expr, old(self).table()) is None,
            r matches Err(m) ==> kind_error(*expr, old(self).table()) == Some(m@),
        decreases expr,
    {
        match expr {
            Expression::Constant(_) => Ok(()),
            Expression::Var(name) => {
                match self.symbol(name) {
                    None => Err(
                        quoted("Internal error: undeclared identifier '", name, "' after validation pass"),
                    ),
                    Some(symbol) => {
                        if symbol.c_type != CType::Int {
                            return Err(quoted("Function '", name, "' used as a variable"));
                        }
                        Ok(())
                    },
                }
            },
            Expression::FunctionCall { name, args } => {
                match self.symbol(name) {
                    None => Err(
                        quoted("Internal error: undeclared identifier '", name, "' after validation pass"),
                    ),
                    Some(symbol) => match symbol.c_type {
                        CType::Int => Err(quoted("Variable '", name, "' used as a function")),
                        CType::Function { param_count } => {
                            if args.len() != param_count {
                                let mut m = quoted("Function '", name, "' called with ");
                                m.append(decimal_string(args.len()).as_str());
                                m.append(" arguments, but expects ");
                                m.append(decimal_string(param_count).as_str());
                                return Err(m);
                            }
                            let ghost t = self.table();
                            let mut i: usize = 0;
                            proof {
                                assert(args@.take(0) =~= Seq::<Expression>::empty());
                            }
                            while i < args.len()
                                invariant
                                    i <= args.len(),
                                    t == old(self).table(),
                                    self.table() == t,
                                    (*expr) is FunctionCall,
                                    args@ == ((*expr)->args)@,
                                    *name == (*expr)->FunctionCall_name,
                                    table_lookup(t, name@) matches Some(s) && s.c_type == (
                                    CType::Function { param_count: args@.len() as usize }),
                                    args_kinds_ok(args@.take(i as int), t),
                                    args_kind_error(args@.take(i as int), t) is None,
                                decreases args.len() - i,
                            {
                                proof {
                                    assert(args@.take(i + 1).drop_last() =~= args@.take(i as int));
                                }
                                match self.check_expression(&args[i]) {
                                    Ok(()) => {},
                                    Err(e) => {
                                        proof {
                                            lemma_args_kinds_prefix(args@, i + 1, t);
                                            lemma_args_kind_error_prefix(args@, i + 1, t);
                                        }
                                        return Err(e);
                                    },
                                }
                                i = i + 1;
                            }
                            proof {
                                assert(args@.take(args.len() as int) =~= args@);
                            }
                            Ok(())
                        },
                    },
                }
            },
            Expression::Assign { left, right } => {
                self.check_expression(left)?;
                self.check_expression(right)
            },
            Expression::Unary { expression, .. } => self.check_expression(expression),
            Expression::Binary { left, right, .. } => {
                self.check_expression(left)?;
                self.check_expression(right)
            },
            Expression::Conditional { condition, left, right } => {
                self.check_expression(condition)?;
                self.check_expression(left)?;
                self.check_expression(right)
            },
        }
    }
}

proof fn lemma_chk_items_prefix(s: Seq<BlockItem>, n: int, t: Table)
    requires
        0 < n <= s.len(),
        chk_items(s.take(n), t) is Err,
    ensures
        chk_items(s, t) == chk_items(s.take(n), t),
    decreases s.len(),
{
    if n < s.len() {
        assert(s.drop_last().take(n) =~= s.take(n));
        lemma_chk_items_prefix(s.drop_last(), n, t);
    } else {
        assert(s.take(n) =~= s);
    }
}

proof fn lemma_chk_decls_prefix(s: Seq<Declaration>, n: int, t: Table)
    requires
        0 < n <= s.len(),
        chk_decls(s.take(n), t) is Err,
    ensures
        chk_decls(s, t) == chk_decls(s.take(n), t),
    decreases s.len(),
{
    if n < s.len() {
        assert(s.drop_last().take(n) =~= s.take(n));
        lemma_chk_decls_prefix(s.drop_last(), n, t);
    } else {
        assert(s.take(n) =~= s);
    }
}

proof fn lemma_args_kind_error_prefix(s: Seq<Expression>, n: int, t: Table)
    requires
        0 < n <= s.len(),
        args_kind_error(s.take(n), t) is Some,
    ensures
        args_kind_error(s, t) == args_kind_error(s.take(n), t),
    decreases s.len(),
{
    if n < s.len() {
        assert(s.drop_last().take(n) =~= s.take(n));
        lemma_args_kind_error_prefix(s.drop_last(), n, t);
    } else {
        assert(s.take(n) =~= s);
    }
}

proof fn lemma_args_kinds_prefix(s: Seq<Expression>, n: int, t: Table)
    requires
        0 < n <= s.len(),
        !args_kinds_ok(s.take(n), t),
    ensures
        !args_kinds_ok(s, t),
    decreases s.len(),
{
    if n < s.len() {
        assert(s.drop_last().take(n) =~= s.take(n));
        lemma_args_kinds_prefix(s.drop_last(), n, t);
    } else {
        assert(s.take(n) =~= s);
    }
}

} // verus!
