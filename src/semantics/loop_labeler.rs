use vstd::prelude::*;

use crate::ast::{checked, unchecked};
use crate::common::UniqueIdGenerator;

verus! {

// ---------------------------------------------------------------------------
// Model: which jumps are enclosed by a loop, how many loops a tree holds, and
// how a labeled tree relates to the tree it was made from.
// ---------------------------------------------------------------------------

/// The first `break` (`Some(true)`) or `continue` (`Some(false)`) of `s`, in
/// source order, that lies outside every loop, or `None` if there is none
/// (`in_loop` says whether `s` itself lies in a loop).
pub open spec fn stray_stmt(s: unchecked::Statement, in_loop: bool) -> Option<bool>
    decreases s,
{
    match s {
        unchecked::Statement::Break => if in_loop { None } else { Some(true) },
        unchecked::Statement::Continue => if in_loop { None } else { Some(false) },
        unchecked::Statement::If { then_stat, else_stat, .. } => match stray_stmt(*then_stat, in_loop) {
            Some(x) => Some(x),
            None => match else_stat {
                Some(e) => stray_stmt(*e, in_loop),
                None => None,
            },
        },
        unchecked::Statement::Compound(b) => stray_items(b.blocks@, in_loop),
        unchecked::Statement::While { body, .. } => stray_stmt(*body, true),
        unchecked::Statement::DoWhile { body, .. } => stray_stmt(*body, true),
        unchecked::Statement::For { init, body, .. } => match init {
            Some(i) => match stray_item(*i, true) {
                Some(x) => Some(x),
                None => stray_stmt(*body, true),
            },
            None => stray_stmt(*body, true),
        },
        _ => None,
    }
}

pub open spec fn stray_item(i: unchecked::BlockItem, in_loop: bool) -> Option<bool>
    decreases i,
{
    match i {
        unchecked::BlockItem::S(s) => stray_stmt(s, in_loop),
        unchecked::BlockItem::D(d) => stray_decl(d, in_loop),
    }
}

pub open spec fn stray_decl(d: unchecked::Declaration, in_loop: bool) -> Option<bool>
    decreases d,
{
    match d {
        unchecked::Declaration::Function { body: Some(b), .. } => stray_items(b.blocks@, in_loop),
        _ => None,
    }
}

pub open spec fn stray_items(s: Seq<unchecked::BlockItem>, in_loop: bool) -> Option<bool>
    decreases s,
{
    if s.len() == 0 {
        None
    } else {
        match stray_items(s.drop_last(), in_loop) {
            Some(x) => Some(x),
            None => stray_item(s.last(), in_loop),
        }
    }
}

pub open spec fn stray_decls(s: Seq<unchecked::Declaration>) -> Option<bool>
    decreases s,
{
    if s.len() == 0 {
        None
    } else {
        match stray_decls(s.drop_last()) {
            Some(x) => Some(x),
            None => stray_decl(s.last(), false),
        }
    }
}

/// The diagnostic for a stray `break` (`true`) or `continue` (`false`).
pub open spec fn jump_message(is_break: bool) -> Seq<char> {
    if is_break {
        "'break' statement not in a loop"@
    } else {
        "'continue' statement not in a loop"@
    }
}

/// Number of loop statements in `s`.
pub open spec fn loops_stmt(s: unchecked::Statement) -> nat
    decreases s,
{
    match s {
        unchecked::Statement::If { then_stat, else_stat, .. } => loops_stmt(*then_stat) + match else_stat {
            Some(e) => loops_stmt(*e),
            None => 0,
        },
        unchecked::Statement::Compound(b) => loops_items(b.blocks@),
        unchecked::Statement::While { body, .. } => 1 + loops_stmt(*body),
        unchecked::Statement::DoWhile { body, .. } => 1 + loops_stmt(*body),
        unchecked::Statement::For { init, body, .. } => 1 + match init {
            Some(i) => loops_item(*i),
            None => 0,
        } + loops_stmt(*body),
        _ => 0,
    }
}

pub open spec fn loops_item(i: unchecked::BlockItem) -> nat
    decreases i,
{
    match i {
        unchecked::BlockItem::S(s) => loops_stmt(s),
        unchecked::BlockItem::D(d) => loops_decl(d),
    }
}

pub open spec fn loops_decl(d: unchecked::Declaration) -> nat
    decreases d,
{
    match d {
        unchecked::Declaration::Function { body: Some(b), .. } => loops_items(b.blocks@),
        _ => 0,
    }
}

pub open spec fn loops_items(s: Seq<unchecked::BlockItem>) -> nat
    decreases s,
{
    if s.len() == 0 {
        0
    } else {
        loops_items(s.drop_last()) + loops_item(s.last())
    }
}

pub open spec fn loops_decls(s: Seq<unchecked::Declaration>) -> nat
    decreases s,
{
    if s.len() == 0 {
        0
    } else {
        loops_decls(s.drop_last()) + loops_decl(s.last())
    }
}

/// The ids of the loops of `s`, in the order in which the loops begin in the source.
pub open spec fn ids_stmt(s: checked::Statement) -> Seq<usize>
    decreases s,
{
    match s {
        checked::Statement::If { then_stat, else_stat, .. } => ids_stmt(*then_stat) + ids_opt_stmt(
            else_stat,
        ),
        checked::Statement::Compound(b) => ids_items(b.blocks@),
        checked::Statement::While { body, id, .. } => seq![id] + ids_stmt(*body),
        checked::Statement::DoWhile { body, id, .. } => seq![id] + ids_stmt(*body),
        checked::Statement::For { init, body, id, .. } => seq![id] + ids_opt_item(init) + ids_stmt(
            *body,
        ),
        _ => Seq::empty(),
    }
}

pub open spec fn ids_opt_stmt(s: Option<Box<checked::Statement>>) -> Seq<usize>
    decreases s,
{
    match s {
        Some(x) => ids_stmt(*x),
        None => Seq::empty(),
    }
}

pub open spec fn ids_opt_item(i: Option<Box<checked::BlockItem>>) -> Seq<usize>
    decreases i,
{
    match i {
        Some(x) => ids_item(*x),
        None => Seq::empty(),
    }
}

pub open spec fn ids_item(i: checked::BlockItem) -> Seq<usize>
    decreases i,
{
    match i {
        checked::BlockItem::S(s) => ids_stmt(s),
        checked::BlockItem::D(d) => ids_decl(d),
    }
}

pub open spec fn ids_decl(d: checked::Declaration) -> Seq<usize>
    decreases d,
{
    match d {
        checked::Declaration::Function { body: Some(b), .. } => ids_items(b.blocks@),
        _ => Seq::empty(),
    }
}

pub open spec fn ids_items(s: Seq<checked::BlockItem>) -> Seq<usize>
    decreases s,
{
    if s.len() == 0 {
        Seq::empty()
    } else {
        ids_items(s.drop_last()) + ids_item(s.last())
    }
}

pub open spec fn ids_decls(s: Seq<checked::Declaration>) -> Seq<usize>
    decreases s,
{
    if s.len() == 0 {
        Seq::empty()
    } else {
        ids_decls(s.drop_last()) + ids_decl(s.last())
    }
}

/// Every jump in `s` names the innermost loop around it; `enclosing` is the
/// innermost loop around `s` itself.
pub open spec fn targets_stmt(s: checked::Statement, enclosing: Option<usize>) -> bool
    decreases s,
{
    match s {
        checked::Statement::Break { target_id } => enclosing == Some(target_id),
        checked::Statement::Continue { target_id } => enclosing == Some(target_id),
        checked::Statement::If { then_stat, else_stat, .. } => {
            &&& targets_stmt(*then_stat, enclosing)
            &&& match else_stat {
                Some(e) => targets_stmt(*e, enclosing),
                None => true,
            }
        },
        checked::Statement::Compound(b) => targets_items(b.blocks@, enclosing),
        checked::Statement::While { body, id, .. } => targets_stmt(*body, Some(id)),
        checked::Statement::DoWhile { body, id, .. } => targets_stmt(*body, Some(id)),
        checked::Statement::For { init, body, id, .. } => {
            &&& match init {
                Some(i) => targets_item(*i, Some(id)),
                None => true,
            }
            &&& targets_stmt(*body, Some(id))
        },
        _ => true,
    }
}

pub open spec fn targets_item(i: checked::BlockItem, enclosing: Option<usize>) -> bool
    decreases i,
{
    match i {
        checked::BlockItem::S(s) => targets_stmt(s, enclosing),
        checked::BlockItem::D(d) => targets_decl(d, enclosing),
    }
}

pub open spec fn targets_decl(d: checked::Declaration, enclosing: Option<usize>) -> bool
    decreases d,
{
    match d {
        checked::Declaration::Function { body: Some(b), .. } => targets_items(
            b.blocks@,
            enclosing,
        ),
        _ => true,
    }
}

pub open spec fn targets_items(s: Seq<checked::BlockItem>, enclosing: Option<usize>) -> bool
    decreases s,
{
    if s.len() == 0 {
        true
    } else {
        targets_items(s.drop_last(), enclosing) && targets_item(s.last(), enclosing)
    }
}

pub open spec fn targets_decls(s: Seq<checked::Declaration>) -> bool
    decreases s,
{
    if s.len() == 0 {
        true
    } else {
        targets_decls(s.drop_last()) && targets_decl(s.last(), None)
    }
}

/// `c` is `u` with ids added to its loops and jumps, and nothing else changed.
pub open spec fn erases_stmt(c: checked::Statement, u: unchecked::Statement) -> bool
    decreases c,
{
    match c {
        checked::Statement::Return(e) => u == unchecked::Statement::Return(e),
        checked::Statement::Expression(e) => u == unchecked::Statement::Expression(e),
        checked::Statement::Empty => u == unchecked::Statement::Empty,
        checked::Statement::Break { .. } => u == unchecked::Statement::Break,
        checked::Statement::Continue { .. } => u == unchecked::Statement::Continue,
        checked::Statement::If { condition, then_stat, else_stat } => match u {
            unchecked::Statement::If { condition: uc, then_stat: ut, else_stat: ue } => {
                &&& condition == uc
                &&& erases_stmt(*then_stat, *ut)
                &&& match (else_stat, ue) {
                    (Some(ce), Some(ue)) => erases_stmt(*ce, *ue),
                    (None, None) => true,
                    _ => false,
                }
            },
            _ => false,
        },
        checked::Statement::Compound(b) => match u {
            unchecked::Statement::Compound(ub) => erases_items(b.blocks@, ub.blocks@),
            _ => false,
        },
        checked::Statement::While { condition, body, .. } => match u {
            unchecked::Statement::While { condition: uc, body: ub } => condition == uc
                && erases_stmt(*body, *ub),
            _ => false,
        },
        checked::Statement::DoWhile { body, condition, .. } => match u {
            unchecked::Statement::DoWhile { body: ub, condition: uc } => condition == uc
                && erases_stmt(*body, *ub),
            _ => false,
        },
        checked::Statement::For { init, condition, post, body, .. } => match u {
            unchecked::Statement::For { init: ui, condition: uc, post: up, body: ub } => {
                &&& condition == uc
                &&& post == up
                &&& erases_stmt(*body, *ub)
                &&& match (init, ui) {
                    (Some(ci), Some(ui)) => erases_item(*ci, *ui),
                    (None, None) => true,
                    _ => false,
                }
            },
            _ => false,
        },
    }
}

pub open spec fn erases_item(c: checked::BlockItem, u: unchecked::BlockItem) -> bool
    decreases c,
{
    match c {
        checked::BlockItem::S(s) => match u {
            unchecked::BlockItem::S(us) => erases_stmt(s, us),
            _ => false,
        },
        checked::BlockItem::D(d) => match u {
            unchecked::BlockItem::D(ud) => erases_decl(d, ud),
            _ => false,
        },
    }
}

pub open spec fn erases_decl(c: checked::Declaration, u: unchecked::Declaration) -> bool
    decreases c,
{
    match c {
        checked::Declaration::Variable { name, init } => u == unchecked::Declaration::Variable {
            name,
            init,
        },
        checked::Declaration::Function { name, params, body } => match u {
            unchecked::Declaration::Function { name: un, params: up, body: ub } => {
                &&& name == un
                &&& params == up
                &&& match (body, ub) {
                    (Some(cb), Some(ub)) => erases_items(cb.blocks@, ub.blocks@),
                    (None, None) => true,
                    _ => false,
                }
            },
            _ => false,
        },
    }
}

pub open spec fn erases_items(c: Seq<checked::BlockItem>, u: Seq<unchecked::BlockItem>) -> bool
    decreases c,
{
    &&& c.len() == u.len()
    &&& (c.len() > 0 ==> erases_items(c.drop_last(), u.drop_last()) && erases_item(
        c.last(),
        u.last(),
    ))
}

pub open spec fn erases_decls(c: Seq<checked::Declaration>, u: Seq<unchecked::Declaration>) -> bool
    decreases c,
{
    &&& c.len() == u.len()
    &&& (c.len() > 0 ==> erases_decls(c.drop_last(), u.drop_last()) && erases_decl(
        c.last(),
        u.last(),
    ))
}

/// `ids` are the numbers `from`, `from + 1`, ... in this order.
pub open spec fn consecutive(ids: Seq<usize>, from: nat) -> bool {
    forall|i: int| 0 <= i < ids.len() ==> ids[i] == from + i
}

proof fn lemma_consecutive_append(a: Seq<usize>, b: Seq<usize>, from: nat)
    requires
        consecutive(a, from),
        consecutive(b, from + a.len()),
    ensures
        consecutive(a + b, from),
{
    assert forall|i: int| 0 <= i < (a + b).len() implies (a + b)[i] == from + i by {
        if i >= a.len() {
            assert((a + b)[i] == b[i - a.len()]);
        }
    }
}

/// Loop ids handed out as consecutive numbers are pairwise distinct.
pub proof fn lemma_consecutive_distinct(ids: Seq<usize>, from: nat)
    requires
        consecutive(ids, from),
    ensures
        ids.no_duplicates(),
{
}

// ---------------------------------------------------------------------------
// The pass
// ---------------------------------------------------------------------------

/// Gives every loop a fresh id and every `break` / `continue` the id of the
/// innermost loop around it.
pub struct LoopLabeler<'a> {
    id_generator: &'a mut UniqueIdGenerator,
    loop_id_stack: Vec<checked::LoopId>,
}

impl<'a> LoopLabeler<'a> {
    /// The number the labeler's id generator hands out next.
    pub closed spec fn counter(&self) -> nat {
        self.id_generator.peek()
    }

    /// The innermost loop that is open, if any.
    pub closed spec fn innermost(&self) -> Option<usize> {
        if self.loop_id_stack@.len() == 0 {
            None
        } else {
            Some(self.loop_id_stack@.last())
        }
    }

    pub closed spec fn stack(&self) -> Seq<usize> {
        self.loop_id_stack@
    }

    pub fn new(id_generator: &'a mut UniqueIdGenerator) -> (r: Self)
        ensures
            r.counter() == old(id_generator).peek(),
            r.innermost() is None,
            r.stack().len() == 0,
    {
        LoopLabeler { id_generator, loop_id_stack: Vec::new() }
    }

    /// Labels every loop and jump of `prog`. Fails, with the message of the first
    /// offending jump, exactly when a `break` or `continue` stands outside any loop.
    pub fn label_program(&mut self, prog: unchecked::Program) -> (r: Result<checked::Program, String>)
        requires
            old(self).counter() + loops_decls(prog.declarations@) < usize::MAX,
            old(self).stack().len() == 0,
        ensures
            r is Ok <==> stray_decls(prog.declarations@) is None,
            r matches Err(e) ==> e@ == jump_message(stray_decls(prog.declarations@)->Some_0),
            r matches Ok(p) ==> {
                &&& erases_decls(p.declarations@, prog.declarations@)
                &&& targets_decls(p.declarations@)
                &&& consecutive(ids_decls(p.declarations@), old(self).counter())
                &&& ids_decls(p.declarations@).no_duplicates()
                &&& final(self).counter() == old(self).counter() + ids_decls(p.declarations@).len()
                &&& ids_decls(p.declarations@).len() == loops_decls(prog.declarations@)
            },
    {
        let ghost src = prog.declarations@;
        let ghost start = self.counter();
        let mut decls: Vec<checked::Declaration> = Vec::new();
        proof {
            assert(src.take(0) =~= Seq::<unchecked::Declaration>::empty());
        }
        for decl in it: prog.declarations
            invariant
                it.seq() == src,
                self.stack().len() == 0,
                start + loops_decls(src) < usize::MAX,
                ids_decls(decls@).len() == loops_decls(src.take(it.index() as int)),
                stray_decls(src.take(it.index() as int)) is None,
                erases_decls(decls@, src.take(it.index() as int)),
                targets_decls(decls@),
                consecutive(ids_decls(decls@), start),
                self.counter() == start + ids_decls(decls@).len(),
        {
            let ghost i = it.index() as int;
            proof {
                assert(decl == src[i]);
                assert(src.take(i + 1).drop_last() =~= src.take(i));
                lemma_loops_decls_prefix(src, i + 1);
            }
            let ghost before = ids_decls(decls@);
            let ghost old_decls = decls@;
            match self.label_declaration(decl) {
                Ok(d) => {
                    let ghost dd = d;
                    decls.push(d);
                    proof {
                        assert(decls@.drop_last() =~= old_decls);
                        assert(src.take(i + 1).last() == src[i]);
                        lemma_consecutive_append(before, ids_decl(dd), start);
                    }
                },
                Err(e) => {
                    proof {
                        assert(src.take(i + 1).last() == src[i]);
                        lemma_not_enclosed_prefix(src, i + 1);
                    }
                    return Err(e);
                },
            }
        }
        proof {
            assert(src.take(src.len() as int) =~= src);
        }
        let p = checked::Program { declarations: decls };
        proof {
            lemma_consecutive_distinct(ids_decls(p.declarations@), start);
        }
        Ok(p)
    }

    fn label_declaration(&mut self, decl: unchecked::Declaration) -> (r: Result<checked::Declaration, String>)
        requires
            old(self).counter() + loops_decl(decl) < usize::MAX,
        ensures
            final(self).stack() == old(self).stack(),
            r is Ok <==> stray_decl(decl, old(self).innermost() is Some) is None,
            r matches Err(e) ==> e@ == jump_message(stray_decl(decl, old(self).innermost() is Some)->Some_0),
            r matches Ok(d) ==> {
                &&& erases_decl(d, decl)
                &&& targets_decl(d, old(self).innermost())
                &&& consecutive(ids_decl(d), old(self).counter())
                &&& final(self).counter() == old(self).counter() + ids_decl(d).len()
                &&& ids_decl(d).len() == loops_decl(decl)
            },
        decreases decl,
    {
        match decl {
            unchecked::Declaration::Function { name, params, body } => {
                match body {
                    Some(b) => {
                        let items = self.label_block(b)?;
                        Ok(checked::Declaration::Function { name, params, body: Some(items) })
                    },
                    None => Ok(checked::Declaration::Function { name, params, body: None }),
                }
            },
            unchecked::Declaration::Variable { name, init } => {
                Ok(checked::Declaration::Variable { name, init })
            },
        }
    }

    fn label_block(&mut self, block: unchecked::Block) -> (r: Result<checked::Block, String>)
        requires
            old(self).counter() + loops_items(block.blocks@) < usize::MAX,
        ensures
            final(self).stack() == old(self).stack(),
            r is Ok <==> stray_items(block.blocks@, old(self).innermost() is Some) is None,
            r matches Err(e) ==> e@ == jump_message(stray_items(block.blocks@, old(self).innermost() is Some)->Some_0),
            r matches Ok(b) ==> {
                &&& erases_items(b.blocks@, block.blocks@)
                &&& targets_items(b.blocks@, old(self).innermost())
                &&& consecutive(ids_items(b.blocks@), old(self).counter())
                &&& final(self).counter() == old(self).counter() + ids_items(b.blocks@).len()
                &&& ids_items(b.blocks@).len() == loops_items(block.blocks@)
            },
        decreases block,
    {
        let ghost src = block.blocks@;
        let ghost start = self.counter();
        let ghost enclosing = self.innermost();
        let ghost stack0 = self.stack();
        let mut items: Vec<checked::BlockItem> = Vec::new();
        proof {
            assert(src.take(0) =~= Seq::<unchecked::BlockItem>::empty());
        }
        for item in it: block.blocks
            invariant
                it.seq() == src,
                src == block.blocks@,
                self.stack() == stack0,
                stack0 == old(self).stack(),
                enclosing == old(self).innermost(),
                start == old(self).counter(),
                self.innermost() == enclosing,
                start + loops_items(src) < usize::MAX,
                ids_items(items@).len() == loops_items(src.take(it.index() as int)),
                stray_items(src.take(it.index() as int), enclosing is Some) is None,
                erases_items(items@, src.take(it.index() as int)),
                targets_items(items@, enclosing),
                consecutive(ids_items(items@), start),
                self.counter() == start + ids_items(items@).len(),
        {
            let ghost i = it.index() as int;
            proof {
                assert(item == src[i]);
                assert(src.take(i + 1).drop_last() =~= src.take(i));
                lemma_loops_items_prefix(src, i + 1);
            }
            let ghost before = ids_items(items@);
            let ghost old_items = items@;
            match self.label_block_item(item) {
                Ok(x) => {
                    let ghost xx = x;
                    items.push(x);
                    proof {
                        assert(items@.drop_last() =~= old_items);
                        assert(src.take(i + 1).last() == src[i]);
                        lemma_consecutive_append(before, ids_item(xx), start);
                    }
                },
                Err(e) => {
                    proof {
                        assert(src.take(i + 1).last() == src[i]);
                        lemma_not_enclosed_items_prefix(src, i + 1, enclosing is Some);
                    }
                    return Err(e);
                },
            }
        }
        proof {
            assert(src.take(src.len() as int) =~= src);
        }
        Ok(checked::Block { blocks: items })
    }

    fn label_block_item(&mut self, item: unchecked::BlockItem) -> (r: Result<checked::BlockItem, String>)
        requires
            old(self).counter() + loops_item(item) < usize::MAX,
        ensures
            final(self).stack() == old(self).stack(),
            r is Ok <==> stray_item(item, old(self).innermost() is Some) is None,
            r matches Err(e) ==> e@ == jump_message(stray_item(item, old(self).innermost() is Some)->Some_0),
            r matches Ok(x) ==> {
                &&& erases_item(x, item)
                &&& targets_item(x, old(self).innermost())
                &&& consecutive(ids_item(x), old(self).counter())
                &&& final(self).counter() == old(self).counter() + ids_item(x).len()
                &&& ids_item(x).len() == loops_item(item)
            },
        decreases item,
    {
        match item {
            unchecked::BlockItem::S(stmt) => Ok(checked::BlockItem::S(self.label_statement(stmt)?)),
            unchecked::BlockItem::D(decl) => Ok(checked::BlockItem::D(self.label_declaration(decl)?)),
        }
    }

    /// Mints an id for a loop that starts here and makes it the innermost one.
    fn enter_loop(&mut self) -> (id: usize)
        requires
            old(self).counter() < usize::MAX,
        ensures
            id == old(self).counter(),
            final(self).counter() == old(self).counter() + 1,
            final(self).stack() == old(self).stack().push(id),
            final(self).innermost() == Some(id),
    {
        let loop_id = self.id_generator.next();
        self.loop_id_stack.push(loop_id);
        loop_id
    }

    fn exit_loop(&mut self)
        requires
            old(self).stack().len() > 0,
        ensures
            final(self).stack() == old(self).stack().drop_last(),
            final(self).counter() == old(self).counter(),
    {
        self.loop_id_stack.pop();
    }

    fn label_statement(&mut self, stmt: unchecked::Statement) -> (r: Result<checked::Statement, String>)
        requires
            old(self).counter() + loops_stmt(stmt) < usize::MAX,
        ensures
            final(self).stack() == old(self).stack(),
            r is Ok <==> stray_stmt(stmt, old(self).innermost() is Some) is None,
            r matches Err(e) ==> e@ == jump_message(stray_stmt(stmt, old(self).innermost() is Some)->Some_0),
            r matches Ok(s) ==> {
                &&& erases_stmt(s, stmt)
                &&& targets_stmt(s, old(self).innermost())
                &&& consecutive(ids_stmt(s), old(self).counter())
                &&& final(self).counter() == old(self).counter() + ids_stmt(s).len()
                &&& ids_stmt(s).len() == loops_stmt(stmt)
            },
        decreases stmt,
    {
        let ghost stack0 = self.stack();
        let ghost c0 = self.counter();
        match stmt {
            unchecked::Statement::For { init, condition, post, body } => {
                let loop_id = self.enter_loop();
                let checked_init = match init {
                    Some(i) => match self.label_block_item(*i) {
                        Ok(x) => Some(Box::new(x)),
                        Err(e) => {
                            self.exit_loop();
                            return Err(e);
                        },
                    },
                    None => None,
                };
                let ghost c1 = self.counter();
                let checked_body = match self.label_statement(*body) {
                    Ok(b) => b,
                    Err(e) => {
                        self.exit_loop();
                        return Err(e);
                    },
                };
                self.exit_loop();
                proof {
                    assert(stack0.push(loop_id).drop_last() =~= stack0);
                    let init_ids = ids_opt_item(checked_init);
                    assert(consecutive(seq![loop_id], c0));
                    lemma_consecutive_append(seq![loop_id], init_ids, c0);
                    lemma_consecutive_append(seq![loop_id] + init_ids, ids_stmt(checked_body), c0);
                }
                Ok(checked::Statement::For {
                    init: checked_init,
                    condition,
                    post,
                    body: Box::new(checked_body),
                    id: loop_id,
                })
            },
            unchecked::Statement::While { condition, body } => {
                let loop_id = self.enter_loop();
                let checked_body = match self.label_statement(*body) {
                    Ok(b) => b,
                    Err(e) => {
                        self.exit_loop();
                        return Err(e);
                    },
                };
                self.exit_loop();
                proof {
                    assert(stack0.push(loop_id).drop_last() =~= stack0);
                    assert(consecutive(seq![loop_id], c0));
                    lemma_consecutive_append(seq![loop_id], ids_stmt(checked_body), c0);
                }
                Ok(checked::Statement::While { condition, body: Box::new(checked_body), id: loop_id })
            },
            unchecked::Statement::DoWhile { body, condition } => {
                let loop_id = self.enter_loop();
                let checked_body = match self.label_statement(*body) {
                    Ok(b) => b,
                    Err(e) => {
                        self.exit_loop();
                        return Err(e);
                    },
                };
                self.exit_loop();
                proof {
                    assert(stack0.push(loop_id).drop_last() =~= stack0);
                    assert(consecutive(seq![loop_id], c0));
                    lemma_consecutive_append(seq![loop_id], ids_stmt(checked_body), c0);
                }
                Ok(checked::Statement::DoWhile { body: Box::new(checked_body), condition, id: loop_id })
            },
            unchecked::Statement::Break => {
                if self.loop_id_stack.len() > 0 {
                    let target_id = self.loop_id_stack[self.loop_id_stack.len() - 1];
                    Ok(checked::Statement::Break { target_id })
                } else {
                    Err(String::from_str("'break' statement not in a loop"))
                }
            },
            unchecked::Statement::Continue => {
                if self.loop_id_stack.len() > 0 {
                    let target_id = self.loop_id_stack[self.loop_id_stack.len() - 1];
                    Ok(checked::Statement::Continue { target_id })
                } else {
                    Err(String::from_str("'continue' statement not in a loop"))
                }
            },
            unchecked::Statement::Return(e) => Ok(checked::Statement::Return(e)),
            unchecked::Statement::Expression(e) => Ok(checked::Statement::Expression(e)),
            unchecked::Statement::Empty => Ok(checked::Statement::Empty),
            unchecked::Statement::Compound(b) => Ok(checked::Statement::Compound(self.label_block(b)?)),
            unchecked::Statement::If { condition, then_stat, else_stat } => {
                let checked_then = self.label_statement(*then_stat)?;
                let ghost c1 = self.counter();
                let checked_else = match else_stat {
                    Some(s) => Some(Box::new(self.label_statement(*s)?)),
                    None => None,
                };
                proof {
                    let else_ids = ids_opt_stmt(checked_else);
                    lemma_consecutive_append(ids_stmt(checked_then), else_ids, c0);
                }
                Ok(checked::Statement::If {
                    condition,
                    then_stat: Box::new(checked_then),
                    else_stat: checked_else,
                })
            },
        }
    }
}

proof fn lemma_loops_decls_prefix(s: Seq<unchecked::Declaration>, n: int)
    requires
        0 <= n <= s.len(),
    ensures
        loops_decls(s.take(n)) <= loops_decls(s),
    decreases s.len(),
{
    if n < s.len() {
        assert(s.drop_last().take(n) =~= s.take(n));
        lemma_loops_decls_prefix(s.drop_last(), n);
    } else {
        assert(s.take(n) =~= s);
    }
}

proof fn lemma_loops_items_prefix(s: Seq<unchecked::BlockItem>, n: int)
    requires
        0 <= n <= s.len(),
    ensures
        loops_items(s.take(n)) <= loops_items(s),
    decreases s.len(),
{
    if n < s.len() {
        assert(s.drop_last().take(n) =~= s.take(n));
        lemma_loops_items_prefix(s.drop_last(), n);
    } else {
        assert(s.take(n) =~= s);
    }
}

proof fn lemma_not_enclosed_prefix(s: Seq<unchecked::Declaration>, n: int)
    requires
        0 < n <= s.len(),
        stray_decls(s.take(n)) is Some,
    ensures
        stray_decls(s) == stray_decls(s.take(n)),
    decreases s.len(),
{
    if n < s.len() {
        assert(s.drop_last().take(n) =~= s.take(n));
        lemma_not_enclosed_prefix(s.drop_last(), n);
    } else {
        assert(s.take(n) =~= s);
    }
}

proof fn lemma_not_enclosed_items_prefix(s: Seq<unchecked::BlockItem>, n: int, in_loop: bool)
    requires
        0 < n <= s.len(),
        stray_items(s.take(n), in_loop) is Some,
    ensures
        stray_items(s, in_loop) == stray_items(s.take(n), in_loop),
    decreases s.len(),
{
    if n < s.len() {
        assert(s.drop_last().take(n) =~= s.take(n));
        lemma_not_enclosed_items_prefix(s.drop_last(), n, in_loop);
    } else {
        assert(s.take(n) =~= s);
    }
}

} // verus!
