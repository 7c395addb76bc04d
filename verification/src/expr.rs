//! The syntax tree of templates: text, `{{ }}` expressions and `{@ @}` blocks,
//! with the abstract values that the contracts speak of.
use vstd::prelude::*;
use vstd::string::StrSliceExecFns;

use crate::dict::Duplicate;
use crate::expr::grammar::{expr_p, for_tag_p};
use crate::expr::parsing::{for_tag, parse_expr, wf_input, ParseError};

pub mod eval;
pub mod grammar;
pub mod parsing;



verus! {

/// The abstract value of an optional string.
pub open spec fn opt_str_view(o: Option<String>) -> Option<Seq<char>> {
    match o {
        Some(s) => Some(s@),
        None => None,
    }
}

/// A record used as the current context of a lookup.
pub type Context = crate::table::Record;

/// The comparison operators that may appear in `where` and `if` clauses.
#[derive(Debug, Clone, Copy, PartialEq, Eq, Structural)]
pub enum Comparator {
    Equal,
    NotEqual,
    GreaterThan,
    LessThan,
    GreaterThanOrEqual,
    LessThanOrEqual,
}

/// How a left-hand side relates to a right-hand side.
#[derive(Debug, Clone, Copy, PartialEq, Eq, Structural)]
pub enum Order {
    Less,
    Equal,
    Greater,
}

/// A lookup switches the current context to a record of another table
/// (or to the record bound by an enclosing loop).
#[derive(Clone, Debug, PartialEq)]
pub struct Lookup {
    /// The field of the current context whose value is the `$id` to look for;
    /// when absent, `table_name` is used as that field.
    pub index: Option<String>,
    /// The table to look in.
    pub table_name: String,
}

pub struct SpecLookup {
    pub index: Option<Seq<char>>,
    pub table_name: Seq<char>,
}

impl View for Lookup {
    type V = SpecLookup;

    open spec fn view(&self) -> SpecLookup {
        SpecLookup { index: opt_str_view(self.index), table_name: self.table_name@ }
    }
}

/// `{{path.field}}`: follow the lookups of `path` in order, then read `field`.
#[derive(Clone, Debug, PartialEq)]
pub struct Expand {
    pub field: String,
    pub path: Vec<Lookup>,
}

pub struct SpecExpand {
    pub field: Seq<char>,
    pub path: Seq<SpecLookup>,
}

pub open spec fn lookups_view(path: Seq<Lookup>) -> Seq<SpecLookup> {
    path.map_values(|l: Lookup| l@)
}

impl View for Expand {
    type V = SpecExpand;

    open spec fn view(&self) -> SpecExpand {
        SpecExpand { field: self.field@, path: lookups_view(self.path@) }
    }
}

/// What stands within `{{ }}`.
#[derive(Clone, Debug, PartialEq)]
pub enum Expr {
    Expand(Expand),
}

impl View for Expr {
    type V = SpecExpand;

    open spec fn view(&self) -> SpecExpand {
        match self {
            Expr::Expand(e) => e@,
        }
    }
}

/// A literal on the right-hand side of a comparison.
#[derive(Debug, Clone, PartialEq)]
pub enum Value {
    Int(i64),
    Uint(u64),
    Text(String),
}

pub enum SpecValue {
    Int(i64),
    Uint(u64),
    Text(Seq<char>),
}

impl View for Value {
    type V = SpecValue;

    open spec fn view(&self) -> SpecValue {
        match self {
            Value::Int(i) => SpecValue::Int(*i),
            Value::Uint(u) => SpecValue::Uint(*u),
            Value::Text(t) => SpecValue::Text(t@),
        }
    }
}

/// `expand comparator value`, as in `team = "Allies"`.
#[derive(Debug, Clone, PartialEq)]
pub struct Comparison {
    pub expand: Expand,
    pub comparator: Comparator,
    pub value: Value,
}

pub struct SpecComparison {
    pub expand: SpecExpand,
    pub comparator: Comparator,
    pub value: SpecValue,
}

impl View for Comparison {
    type V = SpecComparison;

    open spec fn view(&self) -> SpecComparison {
        SpecComparison { expand: self.expand@, comparator: self.comparator, value: self.value@ }
    }
}

/// A `where` clause on a field of the record itself: `field comparator value`, as in
/// `team = "Allies"`.
#[derive(Debug, Clone, PartialEq)]
pub struct WhereClause {
    pub field: String,
    pub comparator: Comparator,
    pub value: Value,
}

pub struct SpecWhereClause {
    pub field: Seq<char>,
    pub comparator: Comparator,
    pub value: SpecValue,
}

impl View for WhereClause {
    type V = SpecWhereClause;

    open spec fn view(&self) -> SpecWhereClause {
        SpecWhereClause { field: self.field@, comparator: self.comparator, value: self.value@ }
    }
}

/// `for [other] name in lookup [where comparison]`
#[derive(Debug, Clone, PartialEq)]
pub struct ForTag {
    pub new_context_name: String,
    pub lookup: Lookup,
    pub other_clause: bool,
    pub where_clause: Option<Comparison>,
}

/// Another name for [`ForTag`]: a `for ... in ...` tag.
pub type ForIn = ForTag;

pub struct SpecForTag {
    pub new_context_name: Seq<char>,
    pub lookup: SpecLookup,
    pub other_clause: bool,
    pub where_clause: Option<SpecComparison>,
}

pub open spec fn opt_cmp_view(o: Option<Comparison>) -> Option<SpecComparison> {
    match o {
        Some(c) => Some(c@),
        None => None,
    }
}

impl View for ForTag {
    type V = SpecForTag;

    open spec fn view(&self) -> SpecForTag {
        SpecForTag {
            new_context_name: self.new_context_name@,
            lookup: self.lookup@,
            other_clause: self.other_clause,
            where_clause: opt_cmp_view(self.where_clause),
        }
    }
}

/// What opens a block: `{@ for ... @}` or `{@ if ... @}`.
#[derive(Clone, PartialEq, Debug)]
pub enum BlockExpr {
    ForTag(ForTag),
    If(Comparison),
}

pub enum SpecBlockExpr {
    ForTag(SpecForTag),
    If(SpecComparison),
}

impl View for BlockExpr {
    type V = SpecBlockExpr;

    open spec fn view(&self) -> SpecBlockExpr {
        match self {
            BlockExpr::ForTag(f) => SpecBlockExpr::ForTag(f@),
            BlockExpr::If(c) => SpecBlockExpr::If(c@),
        }
    }
}

/// The word that closes a block opened by this expression: `{@ end for @}`, `{@ end if @}`.
pub open spec fn spec_close_name(e: SpecBlockExpr) -> Seq<char> {
    match e {
        SpecBlockExpr::ForTag(_) => seq!['f', 'o', 'r'],
        SpecBlockExpr::If(_) => seq!['i', 'f'],
    }
}

impl BlockExpr {
    /// The word used to close this block.
    pub fn close(&self) -> (res: &'static str)
        ensures
            res@ == spec_close_name(self@),
    {
        proof {
            reveal_strlit("for");
            reveal_strlit("if");
        }
        match self {
            BlockExpr::ForTag(_) => "for",
            BlockExpr::If(_) => "if",
        }
    }
}

/// A block and the nodes it holds, up to its closing tag.
#[derive(PartialEq, Debug)]
pub struct Block {
    pub expr: BlockExpr,
    pub nodes: Vec<Node>,
}

/// Plain text, an inline expression, or a block.
#[derive(PartialEq, Debug)]
pub enum Node {
    Text(String),
    Expr(Expr),
    Block(Block),
}

pub enum SpecNode {
    Text(Seq<char>),
    Expr(SpecExpand),
    Block(SpecBlockExpr, Seq<SpecNode>),
}

pub open spec fn node_view(n: Node) -> SpecNode
    decreases n,
{
    match n {
        Node::Text(t) => SpecNode::Text(t@),
        Node::Expr(e) => SpecNode::Expr(e@),
        Node::Block(b) => SpecNode::Block(b.expr@, nodes_view(b.nodes@)),
    }
}

pub open spec fn nodes_view(ns: Seq<Node>) -> Seq<SpecNode>
    decreases ns,
{
    if ns.len() == 0 {
        Seq::empty()
    } else {
        nodes_view(ns.drop_last()).push(node_view(ns.last()))
    }
}

/// The view of a list of nodes holds the view of each node, in order.
pub proof fn lemma_nodes_view_index(ns: Seq<Node>, k: int)
    requires
        0 <= k < ns.len(),
    ensures
        nodes_view(ns).len() == ns.len(),
        nodes_view(ns)[k] == node_view(ns[k]),
    decreases ns.len(),
{
    lemma_nodes_view_len(ns);
    if k < ns.len() - 1 {
        lemma_nodes_view_index(ns.drop_last(), k);
    }
}

pub proof fn lemma_nodes_view_len(ns: Seq<Node>)
    ensures
        nodes_view(ns).len() == ns.len(),
    decreases ns.len(),
{
    if ns.len() > 0 {
        lemma_nodes_view_len(ns.drop_last());
    }
}

impl View for Node {
    type V = SpecNode;

    open spec fn view(&self) -> SpecNode {
        node_view(*self)
    }
}

impl Node {
    pub fn from_text(text: &str) -> (res: Node)
        ensures
            res@ == SpecNode::Text(text@),
    {
        Node::Text(text.to_owned())
    }
}

impl Lookup {
    pub fn direct(table: &str) -> (res: Lookup)
        ensures
            res@ == (SpecLookup { index: None, table_name: table@ }),
    {
        Lookup { table_name: table.to_owned(), index: None }
    }

    pub fn indirect(table: &str, index: &str) -> (res: Lookup)
        ensures
            res@ == (SpecLookup { index: Some(index@), table_name: table@ }),
    {
        Lookup { table_name: table.to_owned(), index: Some(index.to_owned()) }
    }
}

impl Expand {
    pub fn new(field: &str) -> (res: Expand)
        ensures
            res@ == (SpecExpand { field: field@, path: Seq::empty() }),
    {
        let res = Expand { field: field.to_owned(), path: Vec::new() };
        assert(lookups_view(res.path@) =~= Seq::empty());
        res
    }

    pub fn with_lookup(field: &str, path: Lookup) -> (res: Expand)
        ensures
            res@ == (SpecExpand { field: field@, path: seq![path@] }),
    {
        let res = Expand { field: field.to_owned(), path: vec![path] };
        assert(lookups_view(res.path@) =~= seq![path@]);
        res
    }

    pub fn with_nested_lookups(field: &str, path: Vec<Lookup>) -> (res: Expand)
        ensures
            res@ == (SpecExpand { field: field@, path: lookups_view(path@) }),
    {
        Expand { field: field.to_owned(), path }
    }
}

impl Comparison {
    pub fn new(expand: Expand, comparator: Comparator, value: Value) -> (res: Comparison)
        ensures
            res@ == (SpecComparison { expand: expand@, comparator, value: value@ }),
    {
        Comparison { expand, comparator, value }
    }
}

impl WhereClause {
    pub fn new(field: &str, comparator: Comparator, value: Value) -> (res: WhereClause)
        ensures
            res@ == (SpecWhereClause { field: field@, comparator, value: value@ }),
    {
        WhereClause { field: field.to_owned(), comparator, value }
    }
}

fn duplicate_opt_string(o: &Option<String>) -> (res: Option<String>)
    ensures
        opt_str_view(res) == opt_str_view(*o),
{
    match o {
        Some(s) => Some(s.clone()),
        None => None,
    }
}

impl Duplicate for Lookup {
    fn duplicate(&self) -> (res: Lookup) {
        Lookup { index: duplicate_opt_string(&self.index), table_name: self.table_name.clone() }
    }
}

impl Duplicate for Expand {
    fn duplicate(&self) -> (res: Expand) {
        let mut path: Vec<Lookup> = Vec::new();
        let mut k: usize = 0;
        while k < self.path.len()
            invariant
                k <= self.path@.len(),
                lookups_view(path@) =~= lookups_view(self.path@).take(k as int),
            decreases self.path@.len() - k,
        {
            let l = self.path[k].duplicate();
            let ghost prev = path@;
            path.push(l);
            assert(lookups_view(path@) =~= lookups_view(prev).push(self.path@[k as int]@));
            assert(lookups_view(self.path@).take(k + 1) =~= lookups_view(self.path@).take(
                k as int,
            ).push(self.path@[k as int]@));
            k = k + 1;
        }
        assert(lookups_view(self.path@).take(k as int) =~= lookups_view(self.path@));
        Expand { field: self.field.clone(), path }
    }
}

impl Duplicate for Value {
    fn duplicate(&self) -> (res: Value) {
        match self {
            Value::Int(i) => Value::Int(*i),
            Value::Uint(u) => Value::Uint(*u),
            Value::Text(t) => Value::Text(t.clone()),
        }
    }
}

impl Duplicate for Comparison {
    fn duplicate(&self) -> (res: Comparison) {
        Comparison {
            expand: self.expand.duplicate(),
            comparator: self.comparator,
            value: self.value.duplicate(),
        }
    }
}

impl Duplicate for ForTag {
    fn duplicate(&self) -> (res: ForTag) {
        ForTag {
            new_context_name: self.new_context_name.clone(),
            lookup: self.lookup.duplicate(),
            other_clause: self.other_clause,
            where_clause: match &self.where_clause {
                Some(w) => Some(w.duplicate()),
                None => None,
            },
        }
    }
}

impl Duplicate for BlockExpr {
    fn duplicate(&self) -> (res: BlockExpr) {
        match self {
            BlockExpr::ForTag(f) => BlockExpr::ForTag(f.duplicate()),
            BlockExpr::If(c) => BlockExpr::If(c.duplicate()),
        }
    }
}

impl std::str::FromStr for Expr {
    type Err = ParseError;

    /// Parses a whole `{{ expression }}`: it succeeds exactly where the text (of a
    /// length the parser can index) is one expression and nothing more.
    fn from_str(s: &str) -> (res: Result<Expr, ParseError>)
        ensures
            match res {
                Ok(x) => wf_input(s@) && expr_p(s@, 0) == Some((x@, s@.len() as int)),
                Err(_) => !wf_input(s@) || !(expr_p(s@, 0) matches Some((_, k)) && k == s@.len()),
            },
    {
        if s.unicode_len() > usize::MAX - 16 {
            return Err(ParseError);
        }
        parse_expr(s)
    }
}

impl std::str::FromStr for ForTag {
    type Err = ParseError;

    /// Parses `for [other ]name in lookup[ where comparison]` from the start of the
    /// text; whatever follows the tag is ignored.
    fn from_str(s: &str) -> (res: Result<ForTag, ParseError>)
        ensures
            match res {
                Ok(f) => wf_input(s@) && (for_tag_p(s@, 0) matches Some((g, _)) && g == f@),
                Err(_) => !wf_input(s@) || for_tag_p(s@, 0) is None,
            },
    {
        if s.unicode_len() > usize::MAX - 16 {
            return Err(ParseError);
        }
        match for_tag(s) {
            Ok((f, _)) => Ok(f),
            Err(e) => Err(e),
        }
    }
}

} // verus!
