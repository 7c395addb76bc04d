//! Compiled templates, and populating them with a record.
use vstd::prelude::*;

use crate::definition::{spec_index, Definition, SpecDefinition};
use crate::dict::{Dict, Duplicate};
use vstd::string::StringExecFns;
use crate::error::{PopError, SpecPopError};
use crate::expr::eval::{
    spec_expand_run, spec_follow, spec_lookup_run, spec_matches, spec_test_value, SpecContext,
};
use crate::expr::grammar::{escape_dots, lit_close_expr, lit_open_expr, plain_name, template_p};
use crate::expr::parsing::{template, wf_input, ParseError};
use crate::expr::{
    opt_str_view, BlockExpr, Comparison, Expr, ForTag, Node, SpecBlockExpr, SpecComparison,
    SpecExpand, SpecForTag, SpecLookup, SpecNode, lemma_nodes_view_index, nodes_view,
};
use crate::table::{Record, SpecRecord};

verus! {

/// The records bound by enclosing loops, by the names the loops give them.
pub type InheritedContext = Dict<Record>;

/// What a `for` block loops over.
#[derive(PartialEq, Debug, Clone)]
pub enum ContextIndex {
    /// A list of values inline, rather than an index as such.
    ValueList(Vec<String>),
    /// All the records of a table.
    Table { table_name: String },
    /// The records of a table for which a where clause holds.
    FilteredTableWhere { table_name: String, where_clause: Comparison },
    /// The records of a table but the one whose `$id` is the value of the index field
    /// (the table name where no index is given) of the current record.
    FilteredTableOther { table_name: String, index: Option<String> },
    /// The records that both an other clause and a where clause keep.
    FilteredTableOtherWhere { table_name: String, where_clause: Comparison, index: Option<String> },
}

pub enum SpecContextIndex {
    ValueList(Seq<Seq<char>>),
    Table { table_name: Seq<char> },
    FilteredTableWhere { table_name: Seq<char>, where_clause: SpecComparison },
    FilteredTableOther { table_name: Seq<char>, index: Option<Seq<char>> },
    FilteredTableOtherWhere {
        table_name: Seq<char>,
        where_clause: SpecComparison,
        index: Option<Seq<char>>,
    },
}

impl View for ContextIndex {
    type V = SpecContextIndex;

    open spec fn view(&self) -> SpecContextIndex {
        match self {
            ContextIndex::ValueList(v) => SpecContextIndex::ValueList(
                v@.map_values(|s: String| s@),
            ),
            ContextIndex::Table { table_name } => SpecContextIndex::Table {
                table_name: table_name@,
            },
            ContextIndex::FilteredTableWhere { table_name, where_clause } =>
                SpecContextIndex::FilteredTableWhere {
                table_name: table_name@,
                where_clause: where_clause@,
            },
            ContextIndex::FilteredTableOther { table_name, index } =>
                SpecContextIndex::FilteredTableOther {
                table_name: table_name@,
                index: opt_str_view(*index),
            },
            ContextIndex::FilteredTableOtherWhere { table_name, where_clause, index } =>
                SpecContextIndex::FilteredTableOtherWhere {
                table_name: table_name@,
                where_clause: where_clause@,
                index: opt_str_view(*index),
            },
        }
    }
}

/// What a `for` tag loops over: the records of its table, less the current one
/// when it says `other`, and only those its `where` clause keeps.
pub open spec fn spec_ctx_idx(f: SpecForTag) -> SpecContextIndex {
    let table_name = f.lookup.table_name;
    let index = f.lookup.index;
    match f.where_clause {
        Some(w) => if f.other_clause {
            SpecContextIndex::FilteredTableOtherWhere { table_name, where_clause: w, index }
        } else {
            SpecContextIndex::FilteredTableWhere { table_name, where_clause: w }
        },
        None => if f.other_clause {
            SpecContextIndex::FilteredTableOther { table_name, index }
        } else {
            SpecContextIndex::Table { table_name }
        },
    }
}

impl ForTag {
    /// What this tag loops over; see [`spec_ctx_idx`].
    pub fn ctx_idx(&self) -> (res: ContextIndex)
        ensures
            res@ == spec_ctx_idx(self@),
    {
        let table_name = self.lookup.table_name.clone();
        let index = match &self.lookup.index {
            Some(i) => Some(i.clone()),
            None => None,
        };
        match &self.where_clause {
            Some(w) => if self.other_clause {
                ContextIndex::FilteredTableOtherWhere { table_name, where_clause: w.duplicate(), index }
            } else {
                ContextIndex::FilteredTableWhere { table_name, where_clause: w.duplicate() }
            },
            None => if self.other_clause {
                ContextIndex::FilteredTableOther { table_name, index }
            } else {
                ContextIndex::Table { table_name }
            },
        }
    }
}

/// A block with its nodes compiled, and, for a loop, the name it binds and what it
/// loops over.
#[derive(PartialEq, Debug)]
pub struct CompiledBlock {
    pub expr: BlockExpr,
    pub nodes: Vec<CompiledNode>,
    pub block_ctx_idx: Option<(String, ContextIndex)>,
}

/// A node ready to be populated.
#[derive(PartialEq, Debug)]
pub enum CompiledNode {
    Text(String),
    Expr(Expr),
    Block(CompiledBlock),
}

pub enum SpecCompiledNode {
    Text(Seq<char>),
    Expr(SpecExpand),
    Block(SpecBlockExpr, Seq<SpecCompiledNode>, Option<(Seq<char>, SpecContextIndex)>),
}

pub open spec fn ctx_idx_view(o: Option<(String, ContextIndex)>) -> Option<(Seq<char>, SpecContextIndex)> {
    match o {
        Some((n, c)) => Some((n@, c@)),
        None => None,
    }
}

pub open spec fn cnode_view(n: CompiledNode) -> SpecCompiledNode
    decreases n,
{
    match n {
        CompiledNode::Text(t) => SpecCompiledNode::Text(t@),
        CompiledNode::Expr(e) => SpecCompiledNode::Expr(e@),
        CompiledNode::Block(b) => SpecCompiledNode::Block(
            b.expr@,
            cnodes_view(b.nodes@),
            ctx_idx_view(b.block_ctx_idx),
        ),
    }
}

pub open spec fn cnodes_view(ns: Seq<CompiledNode>) -> Seq<SpecCompiledNode>
    decreases ns,
{
    if ns.len() == 0 {
        Seq::empty()
    } else {
        cnodes_view(ns.drop_last()).push(cnode_view(ns.last()))
    }
}

impl View for CompiledNode {
    type V = SpecCompiledNode;

    open spec fn view(&self) -> SpecCompiledNode {
        cnode_view(*self)
    }
}

/// Compiling a node keeps its shape, and gives each `for` block the name it binds
/// and what it loops over.
pub open spec fn compile_spec(n: SpecNode) -> SpecCompiledNode
    decreases n,
{
    match n {
        SpecNode::Text(t) => SpecCompiledNode::Text(t),
        SpecNode::Expr(e) => SpecCompiledNode::Expr(e),
        SpecNode::Block(be, ns) => SpecCompiledNode::Block(
            be,
            compile_all(ns),
            match be {
                SpecBlockExpr::ForTag(f) => Some((f.new_context_name, spec_ctx_idx(f))),
                SpecBlockExpr::If(_) => None,
            },
        ),
    }
}

pub open spec fn compile_all(ns: Seq<SpecNode>) -> Seq<SpecCompiledNode>
    decreases ns,
{
    if ns.len() == 0 {
        Seq::empty()
    } else {
        compile_all(ns.drop_last()).push(compile_spec(ns.last()))
    }
}

/// A template: the nodes to populate, in order.
#[derive(PartialEq, Debug)]
pub struct Template {
    nodes: Vec<CompiledNode>,
}

impl View for Template {
    type V = Seq<SpecCompiledNode>;

    closed spec fn view(&self) -> Seq<SpecCompiledNode> {
        cnodes_view(self.nodes@)
    }
}

/// The template that a text compiles to, if it parses.
pub open spec fn spec_compile(input: Seq<char>) -> Option<Seq<SpecCompiledNode>> {
    match template_p(input) {
        Some(ns) => Some(compile_all(ns)),
        None => None,
    }
}

proof fn lemma_cnodes_view_push(ns: Seq<CompiledNode>, n: CompiledNode)
    ensures
        cnodes_view(ns.push(n)) == cnodes_view(ns).push(n@),
{
    assert(ns.push(n).drop_last() =~= ns);
}

fn compile_ref(node: &Node) -> (res: CompiledNode)
    ensures
        res@ == compile_spec(node@),
    decreases node@,
{
    match node {
        Node::Text(t) => CompiledNode::Text(t.clone()),
        Node::Expr(Expr::Expand(e)) => CompiledNode::Expr(Expr::Expand(e.duplicate())),
        Node::Block(b) => {
            let mut out: Vec<CompiledNode> = Vec::new();
            let mut k: usize = 0;
            assert(node@ == SpecNode::Block(b.expr@, nodes_view(b.nodes@)));
            while k < b.nodes.len()
                invariant
                    node@ == SpecNode::Block(b.expr@, nodes_view(b.nodes@)),
                    k <= b.nodes@.len(),
                    cnodes_view(out@) == compile_all(nodes_view(b.nodes@.take(k as int))),
                decreases b.nodes@.len() - k,
            {
                proof {
                    lemma_nodes_view_index(b.nodes@, k as int);
                    let v = node@;
                    assert(decreases_to!(v => v->1));
                    assert(decreases_to!(v->1 => (v->1)[k as int]));
                }
                let c = compile_ref(&b.nodes[k]);
                let ghost prev = out@;
                out.push(c);
                proof {
                    lemma_cnodes_view_push(prev, c);
                    let t = b.nodes@.take(k + 1);
                    assert(t.drop_last() =~= b.nodes@.take(k as int));
                    assert(nodes_view(t).drop_last() =~= nodes_view(b.nodes@.take(k as int)));
                }
                k = k + 1;
            }
            assert(b.nodes@.take(k as int) =~= b.nodes@);
            let block_ctx_idx = match &b.expr {
                BlockExpr::ForTag(f) => Some((f.new_context_name.clone(), f.ctx_idx())),
                BlockExpr::If(_) => None,
            };
            CompiledNode::Block(CompiledBlock { expr: b.expr.duplicate(), nodes: out, block_ctx_idx })
        },
    }
}

impl Template {
    /// Parses and compiles a template.
    pub fn compile(input: &str) -> (res: Result<Template, ParseError>)
        requires
            wf_input(input@),
        ensures
            match res {
                Ok(t) => spec_compile(input@) == Some(t@),
                Err(_) => spec_compile(input@) is None,
            },
    {
        let (nodes, _) = match template(input) {
            Ok(x) => x,
            Err(e) => {
                return Err(e);
            },
        };
        let mut out: Vec<CompiledNode> = Vec::new();
        let mut k: usize = 0;
        while k < nodes.len()
            invariant
                k <= nodes@.len(),
                cnodes_view(out@) == compile_all(nodes_view(nodes@.take(k as int))),
            decreases nodes@.len() - k,
        {
            let c = compile_ref(&nodes[k]);
            let ghost prev = out@;
            out.push(c);
            proof {
                lemma_cnodes_view_push(prev, c);
                let t = nodes@.take(k + 1);
                assert(t.drop_last() =~= nodes@.take(k as int));
                assert(nodes_view(t).drop_last() =~= nodes_view(nodes@.take(k as int)));
            }
            k = k + 1;
        }
        assert(nodes@.take(k as int) =~= nodes@);
        Ok(Template { nodes: out })
    }

    /// Compiles one node.
    pub fn compile_node(node: Node) -> (res: CompiledNode)
        ensures
            res@ == compile_spec(node@),
    {
        compile_ref(&node)
    }

    /// Populates this template with one record; loops and lookups resolve against `def`.
    pub fn pop(&self, record: &Record, def: &Definition) -> (res: Result<String, PopError>)
        ensures
            match res {
                Ok(s) => spec_pop_nodes(self@, record@, def@, Map::empty()) == Ok::<
                    Seq<char>,
                    SpecPopError,
                >(s@),
                Err(e) => spec_pop_nodes(self@, record@, def@, Map::empty()) == Err::<
                    Seq<char>,
                    SpecPopError,
                >(e@),
            },
    {
        let mut output = String::new();
        let ctx: InheritedContext = Dict::new();
        match pop_nodes(&self.nodes, &mut output, record, def, &ctx) {
            Ok(()) => {
                assert(Seq::<char>::empty() + output@ =~= output@);
                Ok(output)
            },
            Err(e) => Err(e),
        }
    }
}

/// Prepends `d` to a successful result.
pub open spec fn then_append(d: Seq<char>, r: Result<Seq<char>, SpecPopError>) -> Result<Seq<char>, SpecPopError> {
    match r {
        Ok(t) => Ok(d + t),
        Err(e) => Err(e),
    }
}

/// What a node populates to: text as it is, an expression as the value it reads,
/// a `for` block as its nodes once per record it loops over (with the loop's name
/// bound to that record), an `if` block as its nodes where its comparison holds.
pub open spec fn spec_pop_node(n: SpecCompiledNode, rec: SpecRecord, d: SpecDefinition, ctx: SpecContext) -> Result<Seq<char>, SpecPopError>
    decreases n, 0nat,
{
    match n {
        SpecCompiledNode::Text(t) => Ok(t),
        SpecCompiledNode::Expr(e) => spec_expand_run(e, rec, d, ctx),
        SpecCompiledNode::Block(be, ns, ci) => match be {
            SpecBlockExpr::ForTag(_) => match ci {
                None => Err(SpecPopError::MissingContextIndex),
                Some((name, idx)) => match spec_index(d, idx, rec, ctx) {
                    Err(e) => Err(e),
                    Ok(None) => Err(SpecPopError::ContextUnavailable { name }),
                    Ok(Some(rs)) => spec_pop_loop(ns, rs, name, rec, d, ctx),
                },
            },
            SpecBlockExpr::If(c) => match spec_matches(c, rec, d, ctx) {
                Err(e) => Err(e),
                Ok(true) => spec_pop_nodes(ns, rec, d, ctx),
                Ok(false) => Ok(Seq::empty()),
            },
        },
    }
}

/// What a list of nodes populates to: their outputs one after another, or the first error.
pub open spec fn spec_pop_nodes(ns: Seq<SpecCompiledNode>, rec: SpecRecord, d: SpecDefinition, ctx: SpecContext) -> Result<Seq<char>, SpecPopError>
    decreases ns, 0nat,
{
    if ns.len() == 0 {
        Ok(Seq::empty())
    } else {
        match spec_pop_node(ns[0], rec, d, ctx) {
            Err(e) => Err(e),
            Ok(a) => then_append(a, spec_pop_nodes(ns.drop_first(), rec, d, ctx)),
        }
    }
}

/// The body of a loop, populated once for each of `rs` in order, with `name` bound
/// to that record.
pub open spec fn spec_pop_loop(
    ns: Seq<SpecCompiledNode>,
    rs: Seq<SpecRecord>,
    name: Seq<char>,
    rec: SpecRecord,
    d: SpecDefinition,
    ctx: SpecContext,
) -> Result<Seq<char>, SpecPopError>
    decreases ns, rs.len() + 1,
{
    if rs.len() == 0 {
        Ok(Seq::empty())
    } else {
        match spec_pop_nodes(ns, rec, d, ctx.insert(name, rs[0])) {
            Err(e) => Err(e),
            Ok(a) => then_append(a, spec_pop_loop(ns, rs.drop_first(), name, rec, d, ctx)),
        }
    }
}

/// What populating a node has written when it fails: nothing for an expression, for
/// an `if` whose comparison fails or for a loop whose records cannot be had; for a
/// block whose body fails, what the body wrote before it failed.  (Where populating
/// succeeds, this is not used.)
pub open spec fn spec_written_node(n: SpecCompiledNode, rec: SpecRecord, d: SpecDefinition, ctx: SpecContext) -> Seq<char>
    decreases n, 0nat,
{
    match n {
        SpecCompiledNode::Text(_) => Seq::empty(),
        SpecCompiledNode::Expr(_) => Seq::empty(),
        SpecCompiledNode::Block(be, ns, ci) => match be {
            SpecBlockExpr::ForTag(_) => match ci {
                None => Seq::empty(),
                Some((name, idx)) => match spec_index(d, idx, rec, ctx) {
                    Ok(Some(rs)) => spec_written_loop(ns, rs, name, rec, d, ctx),
                    _ => Seq::empty(),
                },
            },
            SpecBlockExpr::If(c) => match spec_matches(c, rec, d, ctx) {
                Ok(true) => spec_written_nodes(ns, rec, d, ctx),
                _ => Seq::empty(),
            },
        },
    }
}

/// What populating a list of nodes has written when it fails: the outputs of the
/// nodes before the one that fails, then what that one wrote.
pub open spec fn spec_written_nodes(ns: Seq<SpecCompiledNode>, rec: SpecRecord, d: SpecDefinition, ctx: SpecContext) -> Seq<char>
    decreases ns, 0nat,
{
    if ns.len() == 0 {
        Seq::empty()
    } else {
        match spec_pop_node(ns[0], rec, d, ctx) {
            Err(_) => spec_written_node(ns[0], rec, d, ctx),
            Ok(a) => a + spec_written_nodes(ns.drop_first(), rec, d, ctx),
        }
    }
}

/// What populating the body of a loop has written when it fails: the outputs for
/// the records before the one for which the body fails, then what the body wrote
/// for that record.
pub open spec fn spec_written_loop(
    ns: Seq<SpecCompiledNode>,
    rs: Seq<SpecRecord>,
    name: Seq<char>,
    rec: SpecRecord,
    d: SpecDefinition,
    ctx: SpecContext,
) -> Seq<char>
    decreases ns, rs.len() + 1,
{
    if rs.len() == 0 {
        Seq::empty()
    } else {
        match spec_pop_nodes(ns, rec, d, ctx.insert(name, rs[0])) {
            Err(_) => spec_written_nodes(ns, rec, d, ctx.insert(name, rs[0])),
            Ok(a) => a + spec_written_loop(ns, rs.drop_first(), name, rec, d, ctx),
        }
    }
}

/// An expression sees the names bound by enclosing loops: `{{name.field}}`, with
/// `name` bound to the record `r`, reads `field` of `r`.
pub proof fn lemma_expr_uses_loop_binding(
    l: SpecLookup,
    f: Seq<char>,
    rec: SpecRecord,
    d: SpecDefinition,
    ctx: SpecContext,
    r: SpecRecord,
)
    ensures
        spec_pop_node(
            SpecCompiledNode::Expr(SpecExpand { field: f, path: seq![l] }),
            rec,
            d,
            ctx.insert(l.table_name, r),
        ) == if r.contains_key(f) {
            Ok::<Seq<char>, SpecPopError>(r[f])
        } else {
            Err::<Seq<char>, SpecPopError>(SpecPopError::MissingField { field: f })
        },
{
    let bound = ctx.insert(l.table_name, r);
    let path = seq![l];
    crate::expr::eval::lemma_loop_binding(l, rec, d, ctx, l.table_name, r);
    assert(path.drop_first() =~= Seq::<SpecLookup>::empty());
    assert(spec_lookup_run(path[0], rec, d, bound) == Ok::<SpecRecord, SpecPopError>(r));
    assert(spec_follow(path.drop_first(), r, d, bound) == Ok::<SpecRecord, SpecPopError>(r));
    assert(spec_follow(path, rec, d, bound) == Ok::<SpecRecord, SpecPopError>(r));
}

/// An `if` block sees the names bound by enclosing loops: where its comparison reads a
/// field through one lookup of a loop-bound name, it tests that field of the loop's
/// record, and populates its body, with the same bindings, exactly where the test
/// holds.
pub proof fn lemma_if_uses_loop_binding(
    c: SpecComparison,
    ns: Seq<SpecCompiledNode>,
    ci: Option<(Seq<char>, SpecContextIndex)>,
    rec: SpecRecord,
    d: SpecDefinition,
    ctx: SpecContext,
    r: SpecRecord,
)
    requires
        c.expand.path.len() == 1,
    ensures
        ({
            let bound = ctx.insert(c.expand.path[0].table_name, r);
            let f = c.expand.field;
            spec_pop_node(SpecCompiledNode::Block(SpecBlockExpr::If(c), ns, ci), rec, d, bound) == if !r.contains_key(f) {
                Err::<Seq<char>, SpecPopError>(SpecPopError::MissingField { field: f })
            } else {
                match spec_test_value(c.comparator, c.value, f, r[f]) {
                    Err(e) => Err(e),
                    Ok(true) => spec_pop_nodes(ns, rec, d, bound),
                    Ok(false) => Ok(Seq::empty()),
                }
            }
        }),
{
    let name = c.expand.path[0].table_name;
    let bound = ctx.insert(name, r);
    crate::expr::eval::lemma_loop_binding(c.expand.path[0], rec, d, ctx, name, r);
    assert(c.expand.path.drop_first() =~= Seq::<SpecLookup>::empty());
    assert(spec_lookup_run(c.expand.path[0], rec, d, bound) == Ok::<SpecRecord, SpecPopError>(r));
    assert(spec_follow(c.expand.path.drop_first(), r, d, bound) == Ok::<SpecRecord, SpecPopError>(r));
    assert(spec_follow(c.expand.path, rec, d, bound) == Ok::<SpecRecord, SpecPopError>(r));
}

/// Nodes populate one after another: a list of nodes succeeds exactly where each node
/// does, and then its output is theirs in order.
pub proof fn lemma_nodes_each(ns: Seq<SpecCompiledNode>, rec: SpecRecord, d: SpecDefinition, ctx: SpecContext)
    ensures
        (spec_pop_nodes(ns, rec, d, ctx) is Ok) == (forall|i: int|
            0 <= i < ns.len() ==> #[trigger] spec_pop_node(ns[i], rec, d, ctx) is Ok),
        spec_pop_nodes(ns, rec, d, ctx) is Ok ==> spec_pop_nodes(ns, rec, d, ctx)->Ok_0 == Seq::new(
            ns.len(),
            |i: int| spec_pop_node(ns[i], rec, d, ctx)->Ok_0,
        ).flatten(),
    decreases ns.len(),
{
    let outs = Seq::new(ns.len(), |i: int| spec_pop_node(ns[i], rec, d, ctx)->Ok_0);
    if ns.len() == 0 {
        assert(outs.flatten() =~= Seq::<char>::empty());
    } else {
        let tail = ns.drop_first();
        lemma_nodes_each(tail, rec, d, ctx);
        let touts = Seq::new(tail.len(), |i: int| spec_pop_node(tail[i], rec, d, ctx)->Ok_0);
        assert(outs.drop_first() =~= touts);
        if (forall|i: int| 0 <= i < ns.len() ==> #[trigger] spec_pop_node(ns[i], rec, d, ctx) is Ok) {
            assert(spec_pop_node(ns[0], rec, d, ctx) is Ok);
            assert forall|i: int| 0 <= i < tail.len() implies #[trigger] spec_pop_node(
                tail[i],
                rec,
                d,
                ctx,
            ) is Ok by {
                assert(tail[i] == ns[i + 1]);
            }
        } else {
            let i = choose|i: int| 0 <= i < ns.len() && !(#[trigger] spec_pop_node(ns[i], rec, d, ctx) is Ok);
            if i > 0 {
                assert(tail[i - 1] == ns[i]);
            }
        }
    }
}

/// A loop populates its body once for each record, in order, with its name bound to
/// that record: it succeeds exactly where each of these succeeds, and then its output
/// is theirs one after another.
pub proof fn lemma_loop_each_record(
    ns: Seq<SpecCompiledNode>,
    rs: Seq<SpecRecord>,
    name: Seq<char>,
    rec: SpecRecord,
    d: SpecDefinition,
    ctx: SpecContext,
)
    ensures
        (spec_pop_loop(ns, rs, name, rec, d, ctx) is Ok) == (forall|i: int|
            0 <= i < rs.len() ==> #[trigger] spec_pop_nodes(ns, rec, d, ctx.insert(name, rs[i])) is Ok),
        spec_pop_loop(ns, rs, name, rec, d, ctx) is Ok ==> spec_pop_loop(ns, rs, name, rec, d, ctx)->Ok_0
            == Seq::new(
            rs.len(),
            |i: int| spec_pop_nodes(ns, rec, d, ctx.insert(name, rs[i]))->Ok_0,
        ).flatten(),
    decreases rs.len(),
{
    let outs = Seq::new(
        rs.len(),
        |i: int| spec_pop_nodes(ns, rec, d, ctx.insert(name, rs[i]))->Ok_0,
    );
    if rs.len() == 0 {
        assert(outs.flatten() =~= Seq::<char>::empty());
    } else {
        let tail = rs.drop_first();
        lemma_loop_each_record(ns, tail, name, rec, d, ctx);
        let touts = Seq::new(
            tail.len(),
            |i: int| spec_pop_nodes(ns, rec, d, ctx.insert(name, tail[i]))->Ok_0,
        );
        assert(outs.drop_first() =~= touts);
        if (forall|i: int|
            0 <= i < rs.len() ==> #[trigger] spec_pop_nodes(ns, rec, d, ctx.insert(name, rs[i])) is Ok) {
            assert(spec_pop_nodes(ns, rec, d, ctx.insert(name, rs[0])) is Ok);
            assert forall|i: int| 0 <= i < tail.len() implies #[trigger] spec_pop_nodes(
                ns,
                rec,
                d,
                ctx.insert(name, tail[i]),
            ) is Ok by {
                assert(tail[i] == rs[i + 1]);
            }
        } else {
            let i = choose|i: int|
                0 <= i < rs.len() && !(#[trigger] spec_pop_nodes(ns, rec, d, ctx.insert(name, rs[i])) is Ok);
            if i > 0 {
                assert(tail[i - 1] == rs[i]);
            }
        }
    }
}

/// Binding a name in a loop hides any binding of that name by an enclosing loop:
/// the body populates, and writes, the same whether or not the name was bound before.
pub proof fn lemma_loop_rebinds_name(
    ns: Seq<SpecCompiledNode>,
    rs: Seq<SpecRecord>,
    name: Seq<char>,
    rec: SpecRecord,
    d: SpecDefinition,
    ctx: SpecContext,
)
    ensures
        spec_pop_loop(ns, rs, name, rec, d, ctx) == spec_pop_loop(ns, rs, name, rec, d, ctx.remove(name)),
        spec_written_loop(ns, rs, name, rec, d, ctx) == spec_written_loop(
            ns,
            rs,
            name,
            rec,
            d,
            ctx.remove(name),
        ),
    decreases rs.len(),
{
    if rs.len() > 0 {
        assert(ctx.insert(name, rs[0]) =~= ctx.remove(name).insert(name, rs[0]));
        lemma_loop_rebinds_name(ns, rs.drop_first(), name, rec, d, ctx);
    }
}

/// A `for` block whose name is already bound by an enclosing loop populates, and
/// writes, as if that name were not bound, wherever the records it goes over do not
/// depend on the outer binding: inside the block the name stands for the block's own
/// record, and every other name keeps its binding.
pub proof fn lemma_for_block_rebinds_name(
    f: SpecForTag,
    ns: Seq<SpecCompiledNode>,
    name: Seq<char>,
    idx: SpecContextIndex,
    rec: SpecRecord,
    d: SpecDefinition,
    ctx: SpecContext,
)
    requires
        spec_index(d, idx, rec, ctx) == spec_index(d, idx, rec, ctx.remove(name)),
    ensures
        spec_pop_node(
            SpecCompiledNode::Block(SpecBlockExpr::ForTag(f), ns, Some((name, idx))),
            rec,
            d,
            ctx,
        ) == spec_pop_node(
            SpecCompiledNode::Block(SpecBlockExpr::ForTag(f), ns, Some((name, idx))),
            rec,
            d,
            ctx.remove(name),
        ),
        spec_written_node(
            SpecCompiledNode::Block(SpecBlockExpr::ForTag(f), ns, Some((name, idx))),
            rec,
            d,
            ctx,
        ) == spec_written_node(
            SpecCompiledNode::Block(SpecBlockExpr::ForTag(f), ns, Some((name, idx))),
            rec,
            d,
            ctx.remove(name),
        ),
{
    if let Ok(Some(rs)) = spec_index(d, idx, rec, ctx) {
        lemma_loop_rebinds_name(ns, rs, name, rec, d, ctx);
    }
}

/// A non-empty template with no `{` and no backslash populates to itself, whatever
/// the record, the definition and the names bound by loops.
pub proof fn lemma_plain_text_template(s: Seq<char>, rec: SpecRecord, d: SpecDefinition, ctx: SpecContext)
    requires
        s.len() > 0,
        forall|k: int| 0 <= k < s.len() ==> s[k] != '{' && s[k] != '\\',
    ensures
        spec_compile(s) == Some(seq![SpecCompiledNode::Text(s)]),
        spec_pop_nodes(seq![SpecCompiledNode::Text(s)], rec, d, ctx) == Ok::<Seq<char>, SpecPopError>(s),
{
    crate::expr::grammar::lemma_plain_text_parse(s);
    let ns = seq![SpecNode::Text(s)];
    assert(ns.drop_last() =~= Seq::<SpecNode>::empty());
    assert(compile_all(ns.drop_last()) == Seq::<SpecCompiledNode>::empty());
    assert(compile_spec(ns.last()) == SpecCompiledNode::Text(s));
    assert(compile_all(ns) =~= seq![SpecCompiledNode::Text(s)]);
    let cs = seq![SpecCompiledNode::Text(s)];
    assert(cs.drop_first() =~= Seq::<SpecCompiledNode>::empty());
    assert(spec_pop_nodes(cs.drop_first(), rec, d, ctx) == Ok::<Seq<char>, SpecPopError>(
        Seq::empty(),
    ));
    assert(spec_pop_node(cs[0], rec, d, ctx) == Ok::<Seq<char>, SpecPopError>(s));
    assert(s + Seq::<char>::empty() =~= s);
}

/// A field name with its dots escaped by backslashes, inside `{{ }}`, populates to the
/// value of that field of the record, or fails for want of the field:
/// `{{fav\. color}}` reads the field `fav. color`.
pub proof fn lemma_escaped_field_template(f: Seq<char>, rec: SpecRecord, d: SpecDefinition, ctx: SpecContext)
    requires
        plain_name(f),
    ensures
        spec_compile(lit_open_expr() + escape_dots(f) + lit_close_expr()) == Some(
            seq![SpecCompiledNode::Expr(SpecExpand { field: f, path: Seq::empty() })],
        ),
        spec_pop_nodes(
            seq![SpecCompiledNode::Expr(SpecExpand { field: f, path: Seq::empty() })],
            rec,
            d,
            ctx,
        ) == if rec.contains_key(f) {
            Ok::<Seq<char>, SpecPopError>(rec[f])
        } else {
            Err::<Seq<char>, SpecPopError>(SpecPopError::MissingField { field: f })
        },
{
    lemma_escaped_field_compile(f);
    lemma_field_pop(SpecExpand { field: f, path: Seq::empty() }, rec, d, ctx);
}

proof fn lemma_escaped_field_compile(f: Seq<char>)
    requires
        plain_name(f),
    ensures
        spec_compile(lit_open_expr() + escape_dots(f) + lit_close_expr()) == Some(
            seq![SpecCompiledNode::Expr(SpecExpand { field: f, path: Seq::empty() })],
        ),
{
    let x = SpecExpand { field: f, path: Seq::empty() };
    let s = lit_open_expr() + escape_dots(f) + lit_close_expr();
    let ns = seq![SpecNode::Expr(x)];
    assert(template_p(s) == Some(ns)) by {
        crate::expr::grammar::lemma_escaped_field_parse(f);
    }
    assert(compile_all(ns) == seq![SpecCompiledNode::Expr(x)]) by {
        assert(ns.drop_last() =~= Seq::<SpecNode>::empty());
        assert(compile_all(ns.drop_last()) == Seq::<SpecCompiledNode>::empty());
        assert(compile_spec(ns.last()) == SpecCompiledNode::Expr(x));
        assert(Seq::<SpecCompiledNode>::empty().push(SpecCompiledNode::Expr(x)) =~= seq![SpecCompiledNode::Expr(x)]);
    }
    assert(spec_compile(s) == Some(compile_all(ns)));
}

proof fn lemma_field_pop(x: SpecExpand, rec: SpecRecord, d: SpecDefinition, ctx: SpecContext)
    requires
        x.path.len() == 0,
    ensures
        spec_pop_nodes(seq![SpecCompiledNode::Expr(x)], rec, d, ctx) == if rec.contains_key(x.field) {
            Ok::<Seq<char>, SpecPopError>(rec[x.field])
        } else {
            Err::<Seq<char>, SpecPopError>(SpecPopError::MissingField { field: x.field })
        },
{
    let cs = seq![SpecCompiledNode::Expr(x)];
    assert(cs.drop_first() =~= Seq::<SpecCompiledNode>::empty());
    assert(spec_pop_nodes(cs.drop_first(), rec, d, ctx) == Ok::<Seq<char>, SpecPopError>(
        Seq::empty(),
    ));
    assert(spec_follow(x.path, rec, d, ctx) == Ok::<SpecRecord, SpecPopError>(rec));
    assert(spec_pop_node(cs[0], rec, d, ctx) == spec_expand_run(x, rec, d, ctx));
    if rec.contains_key(x.field) {
        assert(rec[x.field] + Seq::<char>::empty() =~= rec[x.field]);
    }
}

proof fn lemma_then_append_assoc(a: Seq<char>, b: Seq<char>, r: Result<Seq<char>, SpecPopError>)
    ensures
        then_append(a, then_append(b, r)) == then_append(a + b, r),
{
    if let Ok(t) = r {
        assert(a + (b + t) =~= (a + b) + t);
    }
}

pub proof fn lemma_cnodes_view_index(ns: Seq<CompiledNode>, k: int)
    requires
        0 <= k < ns.len(),
    ensures
        cnodes_view(ns).len() == ns.len(),
        cnodes_view(ns)[k] == cnode_view(ns[k]),
    decreases ns.len(),
{
    lemma_cnodes_view_len(ns);
    if k < ns.len() - 1 {
        lemma_cnodes_view_index(ns.drop_last(), k);
    }
}

pub proof fn lemma_cnodes_view_len(ns: Seq<CompiledNode>)
    ensures
        cnodes_view(ns).len() == ns.len(),
    decreases ns.len(),
{
    if ns.len() > 0 {
        lemma_cnodes_view_len(ns.drop_last());
    }
}

/// Populates the nodes in order, appending to `output`.
fn pop_nodes(
    nodes: &Vec<CompiledNode>,
    output: &mut String,
    record: &Record,
    def: &Definition,
    ctx: &InheritedContext,
) -> (res: Result<(), PopError>)
    ensures
        match res {
            Ok(_) => spec_pop_nodes(cnodes_view(nodes@), record@, def@, ctx@) matches Ok(t)
                && final(output)@ == old(output)@ + t,
            Err(e) => spec_pop_nodes(cnodes_view(nodes@), record@, def@, ctx@) == Err::<
                Seq<char>,
                SpecPopError,
            >(e@) && final(output)@ == old(output)@ + spec_written_nodes(
                cnodes_view(nodes@),
                record@,
                def@,
                ctx@,
            ),
        },
        old(output)@.is_prefix_of(final(output)@),
    decreases cnodes_view(nodes@), 0nat,
{
    let ghost v = cnodes_view(nodes@);
    let ghost start = output@;
    let ghost mut done: Seq<char> = Seq::empty();
    let mut k: usize = 0;
    proof {
        lemma_cnodes_view_len(nodes@);
        assert(v.skip(0) =~= v);
        assert(start + done =~= start);
        assert(done + spec_written_nodes(v, record@, def@, ctx@) =~= spec_written_nodes(v, record@, def@, ctx@));
        if let Ok(t) = spec_pop_nodes(v, record@, def@, ctx@) {
            assert(done + t =~= t);
        }
    }
    while k < nodes.len()
        invariant
            k <= nodes@.len(),
            v == cnodes_view(nodes@),
            v.len() == nodes@.len(),
            start == old(output)@,
            output@ == start + done,
            spec_pop_nodes(v, record@, def@, ctx@) == then_append(
                done,
                spec_pop_nodes(v.skip(k as int), record@, def@, ctx@),
            ),
            spec_written_nodes(v, record@, def@, ctx@) == done + spec_written_nodes(
                v.skip(k as int),
                record@,
                def@,
                ctx@,
            ),
        decreases nodes@.len() - k,
    {
        proof {
            lemma_cnodes_view_index(nodes@, k as int);
            assert(v.skip(k as int)[0] == v[k as int]);
            assert(v.skip(k as int).drop_first() =~= v.skip(k + 1));
            assert(decreases_to!(v => v[k as int]));
        }
        let ghost before = output@;
        match nodes[k].pop(output, record, def, ctx) {
            Ok(()) => {
                proof {
                    let t = spec_pop_node(v[k as int], record@, def@, ctx@)->Ok_0;
                    lemma_then_append_assoc(
                        done,
                        t,
                        spec_pop_nodes(v.skip(k + 1), record@, def@, ctx@),
                    );
                    assert(start + (done + t) =~= output@);
                    assert(done + (t + spec_written_nodes(v.skip(k + 1), record@, def@, ctx@))
                        =~= (done + t) + spec_written_nodes(v.skip(k + 1), record@, def@, ctx@));
                    done = done + t;
                }
            },
            Err(e) => {
                proof {
                    assert(start + (done + spec_written_node(v[k as int], record@, def@, ctx@))
                        =~= output@);
                    lemma_prefix_of_append(start, output@.subrange(start.len() as int, output@.len() as int));
                    assert(start + output@.subrange(start.len() as int, output@.len() as int) =~= output@);
                }
                return Err(e);
            },
        }
        k = k + 1;
    }
    proof {
        assert(v.skip(k as int) =~= Seq::<SpecCompiledNode>::empty());
        assert(done + Seq::<char>::empty() =~= done);
        lemma_prefix_of_append(start, done);
    }
    Ok(())
}

/// A text is a prefix of itself with more appended.
proof fn lemma_prefix_of_append(a: Seq<char>, b: Seq<char>)
    ensures
        a.is_prefix_of(a + b),
{
    assert((a + b).subrange(0, a.len() as int) =~= a);
}

impl CompiledNode {
    /// Populates this node, appending to `output`; see [`spec_pop_node`].
    pub fn pop(
        &self,
        output: &mut String,
        record: &Record,
        def: &Definition,
        ctx: &InheritedContext,
    ) -> (res: Result<(), PopError>)
        ensures
            match res {
                Ok(_) => spec_pop_node(self@, record@, def@, ctx@) matches Ok(t) && final(output)@
                    == old(output)@ + t,
                Err(e) => spec_pop_node(self@, record@, def@, ctx@) == Err::<
                    Seq<char>,
                    SpecPopError,
                >(e@) && final(output)@ == old(output)@ + spec_written_node(
                    self@,
                    record@,
                    def@,
                    ctx@,
                ),
            },
            old(output)@.is_prefix_of(final(output)@),
        decreases self@, 0nat,
    {
        match self {
            CompiledNode::Text(s) => {
                output.append(s.as_str());
                Ok(())
            },
            CompiledNode::Expr(Expr::Expand(e)) => match e.run(record, def, ctx) {
                Ok(v) => {
                    output.append(v.as_str());
                    Ok(())
                },
                Err(err) => Err(err),
            },
            CompiledNode::Block(b) => {
                proof {
                    assert(self@ == SpecCompiledNode::Block(
                        b.expr@,
                        cnodes_view(b.nodes@),
                        ctx_idx_view(b.block_ctx_idx),
                    ));
                    assert(decreases_to!(self@ => cnodes_view(b.nodes@)));
                }
                match &b.expr {
                    BlockExpr::If(c) => match c.matches(record, def, ctx) {
                        Err(e) => Err(e),
                        Ok(true) => pop_nodes(&b.nodes, output, record, def, ctx),
                        Ok(false) => {
                            assert(old(output)@ + Seq::<char>::empty() =~= old(output)@);
                            Ok(())
                        },
                    },
                    BlockExpr::ForTag(_) => {
                        let (name, ci) = match &b.block_ctx_idx {
                            Some((n, c)) => (n, c),
                            None => {
                                return Err(PopError::MissingContextIndex);
                            },
                        };
                        let rs = match def.index(ci, record, ctx) {
                            Err(e) => {
                                return Err(e);
                            },
                            Ok(None) => {
                                return Err(PopError::ContextUnavailable { name: name.clone() });
                            },
                            Ok(Some(rs)) => rs,
                        };
                        pop_loop(&b.nodes, &rs, name, output, record, def, ctx)
                    },
                }
            },
        }
    }
}

/// Populates `nodes` once per record of `rs`, with `name` bound to that record.
fn pop_loop(
    nodes: &Vec<CompiledNode>,
    rs: &Vec<&Record>,
    name: &String,
    output: &mut String,
    record: &Record,
    def: &Definition,
    ctx: &InheritedContext,
) -> (res: Result<(), PopError>)
    ensures
        match res {
            Ok(_) => spec_pop_loop(
                cnodes_view(nodes@),
                crate::definition::refs_view(rs@),
                name@,
                record@,
                def@,
                ctx@,
            ) matches Ok(t) && final(output)@ == old(output)@ + t,
            Err(e) => spec_pop_loop(
                cnodes_view(nodes@),
                crate::definition::refs_view(rs@),
                name@,
                record@,
                def@,
                ctx@,
            ) == Err::<Seq<char>, SpecPopError>(e@) && final(output)@ == old(output)@
                + spec_written_loop(
                cnodes_view(nodes@),
                crate::definition::refs_view(rs@),
                name@,
                record@,
                def@,
                ctx@,
            ),
        },
        old(output)@.is_prefix_of(final(output)@),
    decreases cnodes_view(nodes@), 1nat,
{
    let ghost v = cnodes_view(nodes@);
    let ghost rv = crate::definition::refs_view(rs@);
    let ghost start = output@;
    let ghost mut done: Seq<char> = Seq::empty();
    let mut i: usize = 0;
    proof {
        assert(rv.skip(0) =~= rv);
        assert(start + done =~= start);
        assert(done + spec_written_loop(v, rv, name@, record@, def@, ctx@) =~= spec_written_loop(
            v,
            rv,
            name@,
            record@,
            def@,
            ctx@,
        ));
        if let Ok(t) = spec_pop_loop(v, rv, name@, record@, def@, ctx@) {
            assert(done + t =~= t);
        }
    }
    while i < rs.len()
        invariant
            i <= rs@.len(),
            v == cnodes_view(nodes@),
            rv == crate::definition::refs_view(rs@),
            start == old(output)@,
            output@ == start + done,
            spec_pop_loop(v, rv, name@, record@, def@, ctx@) == then_append(
                done,
                spec_pop_loop(v, rv.skip(i as int), name@, record@, def@, ctx@),
            ),
            spec_written_loop(v, rv, name@, record@, def@, ctx@) == done + spec_written_loop(
                v,
                rv.skip(i as int),
                name@,
                record@,
                def@,
                ctx@,
            ),
        decreases rs@.len() - i,
    {
        proof {
            assert(rv.skip(i as int)[0] == rs@[i as int]@);
            assert(rv.skip(i as int).drop_first() =~= rv.skip(i + 1));
        }
        let mut merged = ctx.duplicate();
        merged.insert(name.clone(), rs[i].duplicate());
        let ghost before = output@;
        let ghost mctx = merged@;
        assert(mctx == ctx@.insert(name@, rv.skip(i as int)[0]));
        match pop_nodes(nodes, output, record, def, &merged) {
            Ok(()) => {
                proof {
                    let t = spec_pop_nodes(v, record@, def@, mctx)->Ok_0;
                    lemma_then_append_assoc(
                        done,
                        t,
                        spec_pop_loop(v, rv.skip(i + 1), name@, record@, def@, ctx@),
                    );
                    assert(start + (done + t) =~= output@);
                    let w = spec_written_loop(v, rv.skip(i + 1), name@, record@, def@, ctx@);
                    assert(done + (t + w) =~= (done + t) + w);
                    done = done + t;
                }
            },
            Err(e) => {
                proof {
                    let w = spec_written_nodes(v, record@, def@, mctx);
                    assert(start + (done + w) =~= output@);
                    lemma_prefix_of_append(start, done + w);
                }
                return Err(e);
            },
        }
        i = i + 1;
    }
    proof {
        assert(rv.skip(i as int) =~= Seq::<SpecRecord>::empty());
        assert(done + Seq::<char>::empty() =~= done);
        lemma_prefix_of_append(start, done);
    }
    Ok(())
}

} // verus!
