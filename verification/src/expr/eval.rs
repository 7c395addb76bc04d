//! What expressions and comparisons evaluate to, given the current record, the named
//! tables and the records bound by enclosing loops.
use vstd::prelude::*;

use crate::dict::Dict;
use crate::error::{PopError, SpecPopError};
use crate::expr::grammar::{int_p, uint_p};
use crate::expr::parsing::{int_at, uint_at};
use crate::expr::{
    Comparator, Comparison, Expand, Lookup, Order, SpecComparison, SpecExpand, SpecLookup, SpecValue,
    SpecWhereClause, Value, WhereClause,
};
use crate::definition::{in_table, in_table_result, spec_def_table, Definition, SpecDefinition};
use crate::table::{table_index, SpecRecord, SpecTable, Record};
use crate::text::chars_of;

verus! {

/// The abstract value of the named tables.
pub type SpecDefs = Map<Seq<char>, SpecTable>;

/// The abstract value of the records bound by enclosing loops, by name.
pub type SpecContext = Map<Seq<char>, SpecRecord>;

/// One lookup from the record `cur`.  A name bound by an enclosing loop stands for
/// that loop's record.  Otherwise the value of the index field of `cur` (the table
/// name where no index is given) is the `$id` to find in the table of that name, as
/// [`spec_def_table`] finds it (`vars` is the vars table).
pub open spec fn spec_lookup_run(l: SpecLookup, cur: SpecRecord, d: SpecDefinition, ctx: SpecContext) -> Result<SpecRecord, SpecPopError> {
    if ctx.contains_key(l.table_name) {
        Ok(ctx[l.table_name])
    } else {
        let index = match l.index {
            Some(i) => i,
            None => l.table_name,
        };
        if !cur.contains_key(index) {
            Err(SpecPopError::MissingIndexField { index })
        } else if spec_def_table(d, l.table_name) is None {
            Err(SpecPopError::NoTable { table: l.table_name })
        } else {
            let t = spec_def_table(d, l.table_name)->Some_0;
            match table_index(t, cur[index]) {
                Err(e) => Err(e),
                Ok(None) => Err(SpecPopError::NotFound { table: l.table_name, key: cur[index] }),
                Ok(Some(i)) => Ok(t.records[i]),
            }
        }
    }
}

/// The record reached by following the lookups of `path` in order from `cur`.
pub open spec fn spec_follow(path: Seq<SpecLookup>, cur: SpecRecord, d: SpecDefinition, ctx: SpecContext) -> Result<SpecRecord, SpecPopError>
    decreases path.len(),
{
    if path.len() == 0 {
        Ok(cur)
    } else {
        match spec_lookup_run(path[0], cur, d, ctx) {
            Ok(next) => spec_follow(path.drop_first(), next, d, ctx),
            Err(e) => Err(e),
        }
    }
}

/// An expansion follows its lookups in order: following a path is following its first
/// `k` lookups and then the rest from the record they lead to, and the first lookup
/// that fails gives the error.
pub proof fn lemma_follow_split(path: Seq<SpecLookup>, k: int, cur: SpecRecord, d: SpecDefinition, ctx: SpecContext)
    requires
        0 <= k <= path.len(),
    ensures
        spec_follow(path, cur, d, ctx) == match spec_follow(path.take(k), cur, d, ctx) {
            Ok(c) => spec_follow(path.skip(k), c, d, ctx),
            Err(e) => Err(e),
        },
    decreases k,
{
    if k == 0 {
        assert(path.take(0) =~= Seq::<SpecLookup>::empty());
        assert(path.skip(0) =~= path);
    } else {
        let t = path.take(k);
        assert(t[0] == path[0]);
        assert(t.drop_first() =~= path.drop_first().take(k - 1));
        assert(path.skip(k) =~= path.drop_first().skip(k - 1));
        if let Ok(next) = spec_lookup_run(path[0], cur, d, ctx) {
            lemma_follow_split(path.drop_first(), k - 1, next, d, ctx);
        }
    }
}

/// The value an expansion reads: its field, in the record its path leads to.
pub open spec fn spec_expand_run(e: SpecExpand, rec: SpecRecord, d: SpecDefinition, ctx: SpecContext) -> Result<Seq<char>, SpecPopError> {
    match spec_follow(e.path, rec, d, ctx) {
        Ok(c) => if c.contains_key(e.field) {
            Ok(c[e.field])
        } else {
            Err(SpecPopError::MissingField { field: e.field })
        },
        Err(err) => Err(err),
    }
}

/// How `a` compares to `b`.
pub open spec fn order_int(a: int, b: int) -> Order {
    if a < b {
        Order::Less
    } else if a == b {
        Order::Equal
    } else {
        Order::Greater
    }
}

/// How `a` compares to `b` in lexicographic order of their characters (which is also
/// the byte order of their UTF-8 encodings).
pub open spec fn order_text(a: Seq<char>, b: Seq<char>) -> Order
    decreases a.len(),
{
    if a.len() == 0 {
        if b.len() == 0 {
            Order::Equal
        } else {
            Order::Less
        }
    } else if b.len() == 0 {
        Order::Greater
    } else if a[0] < b[0] {
        Order::Less
    } else if a[0] > b[0] {
        Order::Greater
    } else {
        order_text(a.drop_first(), b.drop_first())
    }
}

/// Whether a comparator holds of two values that relate as `o`.
pub open spec fn holds(c: Comparator, o: Order) -> bool {
    match c {
        Comparator::Equal => o == Order::Equal,
        Comparator::NotEqual => o != Order::Equal,
        Comparator::GreaterThan => o == Order::Greater,
        Comparator::LessThan => o == Order::Less,
        Comparator::GreaterThanOrEqual => o != Order::Less,
        Comparator::LessThanOrEqual => o != Order::Greater,
    }
}

/// What `str::parse::<u64>` reads: an optional `+`, then only decimal digits, in range.
pub open spec fn spec_parse_u64(s: Seq<char>) -> Option<u64> {
    let j = if s.len() > 0 && s[0] == '+' {
        1int
    } else {
        0int
    };
    match uint_p(s, j) {
        Some((v, k)) => if k == s.len() {
            Some(v)
        } else {
            None
        },
        None => None,
    }
}

/// What `str::parse::<i64>` reads: an optional sign, then only decimal digits, in range.
pub open spec fn spec_parse_i64(s: Seq<char>) -> Option<i64> {
    match int_p(s, 0) {
        Some((v, k)) => if k == s.len() {
            Some(v)
        } else {
            None
        },
        None => None,
    }
}

/// Whether the value `v` of the field `field` relates to the literal `value` as the
/// comparator says.  Against an integer literal, the value is read as an integer.
pub open spec fn spec_test_value(comparator: Comparator, value: SpecValue, field: Seq<char>, v: Seq<char>) -> Result<bool, SpecPopError> {
    match value {
        SpecValue::Int(w) => match spec_parse_i64(v) {
            Some(x) => Ok(holds(comparator, order_int(x as int, w as int))),
            None => Err(SpecPopError::NotSignedInt { field, table: None }),
        },
        SpecValue::Uint(w) => match spec_parse_u64(v) {
            Some(x) => Ok(holds(comparator, order_int(x as int, w as int))),
            None => Err(SpecPopError::NotUnsignedInt { field, table: None }),
        },
        SpecValue::Text(t) => Ok(holds(comparator, order_text(v, t))),
    }
}

/// What a comparator means between two integers.
pub open spec fn int_relation(c: Comparator, a: int, b: int) -> bool {
    match c {
        Comparator::Equal => a == b,
        Comparator::NotEqual => a != b,
        Comparator::GreaterThan => a > b,
        Comparator::LessThan => a < b,
        Comparator::GreaterThanOrEqual => a >= b,
        Comparator::LessThanOrEqual => a <= b,
    }
}

/// Against an integer literal, a comparison reads the field's value as an integer of
/// the literal's kind and relates the two as the comparator says (`>` strictly, so
/// never on equal values), or fails where the value is not such an integer; against
/// a text, `=` and `!=` hold exactly where the texts are and are not the same.
pub proof fn lemma_test_value_meaning(c: Comparator, value: SpecValue, field: Seq<char>, v: Seq<char>)
    ensures
        value matches SpecValue::Uint(w) ==> spec_test_value(c, value, field, v) == match spec_parse_u64(v) {
            Some(x) => Ok::<bool, SpecPopError>(int_relation(c, x as int, w as int)),
            None => Err(SpecPopError::NotUnsignedInt { field, table: None }),
        },
        value matches SpecValue::Int(w) ==> spec_test_value(c, value, field, v) == match spec_parse_i64(v) {
            Some(x) => Ok::<bool, SpecPopError>(int_relation(c, x as int, w as int)),
            None => Err(SpecPopError::NotSignedInt { field, table: None }),
        },
        value matches SpecValue::Text(t) ==> (c == Comparator::Equal ==> spec_test_value(c, value, field, v)
            == Ok::<bool, SpecPopError>(v == t)),
        value matches SpecValue::Text(t) ==> (c == Comparator::NotEqual ==> spec_test_value(c, value, field, v)
            == Ok::<bool, SpecPopError>(v != t)),
{
    if let SpecValue::Text(t) = value {
        lemma_order_text_flip(v, t);
    }
}

/// `a` comes before `b` in lexicographic order: where they first differ, `a`'s
/// character is the smaller, or `a` is a proper prefix of `b`.
pub open spec fn lex_less(a: Seq<char>, b: Seq<char>) -> bool {
    exists|k: int|
        0 <= k <= a.len() && k <= b.len() && #[trigger] a.take(k) == b.take(k) && ((k == a.len()
            && k < b.len()) || (k < a.len() && k < b.len() && a[k] < b[k]))
}

/// The order of texts is the lexicographic order of their characters.
pub proof fn lemma_order_text_lex(a: Seq<char>, b: Seq<char>)
    ensures
        (order_text(a, b) == Order::Less) == lex_less(a, b),
    decreases a.len(),
{
    if a.len() == 0 {
        if b.len() > 0 {
            assert(a.take(0) =~= b.take(0));
        }
    } else if b.len() == 0 {
    } else if a[0] < b[0] {
        assert(a.take(0) =~= b.take(0));
    } else if a[0] > b[0] {
        if lex_less(a, b) {
            let k = choose|k: int|
                0 <= k <= a.len() && k <= b.len() && #[trigger] a.take(k) == b.take(k) && ((k
                    == a.len() && k < b.len()) || (k < a.len() && k < b.len() && a[k] < b[k]));
            if k > 0 {
                assert(a.take(k)[0] == b.take(k)[0]);
            }
        }
    } else {
        let a1 = a.drop_first();
        let b1 = b.drop_first();
        lemma_order_text_lex(a1, b1);
        if lex_less(a, b) {
            let k = choose|k: int|
                0 <= k <= a.len() && k <= b.len() && #[trigger] a.take(k) == b.take(k) && ((k
                    == a.len() && k < b.len()) || (k < a.len() && k < b.len() && a[k] < b[k]));
            assert(k > 0);
            assert(a1.take(k - 1) =~= a.take(k).drop_first());
            assert(b1.take(k - 1) =~= b.take(k).drop_first());
            assert(a1.take(k - 1) == b1.take(k - 1));
        }
        if lex_less(a1, b1) {
            let k = choose|k: int|
                0 <= k <= a1.len() && k <= b1.len() && #[trigger] a1.take(k) == b1.take(k) && ((k
                    == a1.len() && k < b1.len()) || (k < a1.len() && k < b1.len() && a1[k] < b1[k]));
            assert(a.take(k + 1) =~= seq![a[0]] + a1.take(k));
            assert(b.take(k + 1) =~= seq![b[0]] + b1.take(k));
            assert(a.take(k + 1) == b.take(k + 1));
        }
    }
}

/// What a comparator means between two texts, in lexicographic order.
pub open spec fn text_relation(c: Comparator, a: Seq<char>, b: Seq<char>) -> bool {
    match c {
        Comparator::Equal => a == b,
        Comparator::NotEqual => a != b,
        Comparator::LessThan => lex_less(a, b),
        Comparator::GreaterThan => lex_less(b, a),
        Comparator::LessThanOrEqual => !lex_less(b, a),
        Comparator::GreaterThanOrEqual => !lex_less(a, b),
    }
}

/// Against a text literal, a comparison relates the field's value to the literal in
/// lexicographic order, as the comparator says.
pub proof fn lemma_text_comparisons(c: Comparator, t: Seq<char>, field: Seq<char>, v: Seq<char>)
    ensures
        spec_test_value(c, SpecValue::Text(t), field, v) == Ok::<bool, SpecPopError>(
            text_relation(c, v, t),
        ),
{
    lemma_order_text_flip(v, t);
    lemma_order_text_lex(v, t);
    lemma_order_text_lex(t, v);
}

/// Whether the value that the comparison's expansion reads relates to its literal as
/// its comparator says.
pub open spec fn spec_matches(c: SpecComparison, rec: SpecRecord, d: SpecDefinition, ctx: SpecContext) -> Result<bool, SpecPopError> {
    match spec_expand_run(c.expand, rec, d, ctx) {
        Err(e) => Err(e),
        Ok(v) => spec_test_value(c.comparator, c.value, c.expand.field, v),
    }
}

/// Whether a `where` clause holds of a record of the table `table`: the record must
/// have the field, and an error about a value that is not an integer names the table.
pub open spec fn spec_where_matches(w: SpecWhereClause, rec: SpecRecord, table: Seq<char>) -> Result<bool, SpecPopError> {
    if !rec.contains_key(w.field) {
        Err(SpecPopError::MissingField { field: w.field })
    } else {
        in_table_result(spec_test_value(w.comparator, w.value, w.field, rec[w.field]), table)
    }
}

/// The order of `b` against `a`, given the order of `a` against `b`.
pub open spec fn flip(o: Order) -> Order {
    match o {
        Order::Less => Order::Greater,
        Order::Equal => Order::Equal,
        Order::Greater => Order::Less,
    }
}

/// `!=` holds exactly where `=` does not; `>=` exactly where `<` does not; `<=` exactly
/// where `>` does not.
pub proof fn lemma_comparator_negations(o: Order)
    ensures
        holds(Comparator::NotEqual, o) == !holds(Comparator::Equal, o),
        holds(Comparator::GreaterThanOrEqual, o) == !holds(Comparator::LessThan, o),
        holds(Comparator::LessThanOrEqual, o) == !holds(Comparator::GreaterThan, o),
{
}

/// Comparing texts the other way round flips the order, so `a > b` exactly when
/// `b < a`; and two texts are equal in this order exactly when they are the same.
pub proof fn lemma_order_text_flip(a: Seq<char>, b: Seq<char>)
    ensures
        order_text(b, a) == flip(order_text(a, b)),
        holds(Comparator::GreaterThan, order_text(a, b)) == holds(
            Comparator::LessThan,
            order_text(b, a),
        ),
        (order_text(a, b) == Order::Equal) == (a == b),
    decreases a.len(),
{
    if a.len() > 0 && b.len() > 0 && a[0] == b[0] {
        lemma_order_text_flip(a.drop_first(), b.drop_first());
        if a.drop_first() == b.drop_first() {
            assert(a =~= seq![a[0]] + a.drop_first());
            assert(b =~= seq![b[0]] + b.drop_first());
        }
    } else if a.len() == 0 && b.len() == 0 {
        assert(a =~= b);
    } else if a.len() > 0 && b.len() > 0 {
        assert(a[0] != b[0]);
        assert(a != b);
    }
}

/// Integers compared the other way round flip the order.
pub proof fn lemma_order_int_flip(a: int, b: int)
    ensures
        order_int(b, a) == flip(order_int(a, b)),
        (order_int(a, b) == Order::Equal) == (a == b),
{
}

/// A name bound by an enclosing loop stands for that loop's record, whatever the
/// current record, the tables, or the other names bound; and binding a name leaves
/// the lookups of other names as they were.
pub proof fn lemma_loop_binding(l: SpecLookup, cur: SpecRecord, d: SpecDefinition, ctx: SpecContext, name: Seq<char>, r: SpecRecord)
    ensures
        l.table_name == name ==> spec_lookup_run(l, cur, d, ctx.insert(name, r)) == Ok::<
            SpecRecord,
            SpecPopError,
        >(r),
        l.table_name != name ==> spec_lookup_run(l, cur, d, ctx.insert(name, r))
            == spec_lookup_run(l, cur, d, ctx),
{
}

impl Comparator {
    /// Whether this comparator holds of two values, the first of which relates to the
    /// second as `order`.
    pub fn compare(&self, order: Order) -> (res: bool)
        ensures
            res == holds(*self, order),
    {
        match self {
            Comparator::Equal => order == Order::Equal,
            Comparator::NotEqual => order != Order::Equal,
            Comparator::GreaterThan => order == Order::Greater,
            Comparator::LessThan => order == Order::Less,
            Comparator::GreaterThanOrEqual => order != Order::Less,
            Comparator::LessThanOrEqual => order != Order::Greater,
        }
    }
}

/// How `a` compares to `b`.
pub fn order_i64(a: i64, b: i64) -> (res: Order)
    ensures
        res == order_int(a as int, b as int),
{
    if a < b {
        Order::Less
    } else if a == b {
        Order::Equal
    } else {
        Order::Greater
    }
}

/// How `a` compares to `b`.
pub fn order_u64(a: u64, b: u64) -> (res: Order)
    ensures
        res == order_int(a as int, b as int),
{
    if a < b {
        Order::Less
    } else if a == b {
        Order::Equal
    } else {
        Order::Greater
    }
}

/// How `a` compares to `b` as text.
pub fn order_str(a: &str, b: &str) -> (res: Order)
    ensures
        res == order_text(a@, b@),
{
    let x = chars_of(a);
    let y = chars_of(b);
    let mut i: usize = 0;
    assert(x@.skip(0) =~= x@);
    assert(y@.skip(0) =~= y@);
    while i < x.len() && i < y.len() && x[i] == y[i]
        invariant
            i <= x@.len(),
            i <= y@.len(),
            order_text(a@, b@) == order_text(x@.skip(i as int), y@.skip(i as int)),
            x@ == a@,
            y@ == b@,
        decreases x@.len() - i,
    {
        assert(x@.skip(i as int).drop_first() =~= x@.skip(i + 1));
        assert(y@.skip(i as int).drop_first() =~= y@.skip(i + 1));
        i = i + 1;
    }
    if i == x.len() {
        if i == y.len() {
            Order::Equal
        } else {
            Order::Less
        }
    } else if i == y.len() {
        Order::Greater
    } else if x[i] < y[i] {
        Order::Less
    } else {
        Order::Greater
    }
}

/// Reads a whole string as a `u64`, as `str::parse::<u64>` does.
pub fn parse_u64(s: &str) -> (res: Option<u64>)
    ensures
        res == spec_parse_u64(s@),
{
    let c = chars_of(s);
    let j: usize = if c.len() > 0 && c[0] == '+' {
        1
    } else {
        0
    };
    match uint_at(&c, j) {
        Some((v, k)) => if k == c.len() {
            Some(v)
        } else {
            None
        },
        None => None,
    }
}

/// Reads a whole string as an `i64`, as `str::parse::<i64>` does.
pub fn parse_i64(s: &str) -> (res: Option<i64>)
    ensures
        res == spec_parse_i64(s@),
{
    let c = chars_of(s);
    match int_at(&c, 0) {
        Some((v, k)) => if k == c.len() {
            Some(v)
        } else {
            None
        },
        None => None,
    }
}

impl Lookup {
    /// The record this lookup leads to from `context`; see [`spec_lookup_run`].
    pub fn run<'c>(&self, context: &'c Record, def: &'c Definition, ctx: &'c Dict<Record>) -> (res:
        Result<&'c Record, PopError>)
        ensures
            match res {
                Ok(r) => spec_lookup_run(self@, context@, def@, ctx@) == Ok::<
                    SpecRecord,
                    SpecPopError,
                >(r@),
                Err(e) => spec_lookup_run(self@, context@, def@, ctx@) == Err::<
                    SpecRecord,
                    SpecPopError,
                >(e@),
            },
    {
        match ctx.get(self.table_name.as_str()) {
            Some(r) => {
                return Ok(r);
            },
            None => {},
        }
        let index: &String = match &self.index {
            Some(i) => i,
            None => &self.table_name,
        };
        let key = match context.get(index.as_str()) {
            Some(k) => k,
            None => {
                return Err(PopError::MissingIndexField { index: index.clone() });
            },
        };
        let table = match def.get(self.table_name.as_str()) {
            Some(t) => t,
            None => {
                return Err(PopError::NoTable { table: self.table_name.clone() });
            },
        };
        match table.index_position(key) {
            Err(e) => Err(e),
            Ok(None) => Err(PopError::NotFound { table: self.table_name.clone(), key: key.clone() }),
            Ok(Some(i)) => {
                proof {
                    crate::table::lemma_find_id(table@, key@, 0);
                }
                assert(table@.records[i as int] == table.records@[i as int]@);
                Ok(&table.records[i])
            },
        }
    }
}

impl Expand {
    /// The value this expansion reads; see [`spec_expand_run`].
    pub fn run(&self, record: &Record, def: &Definition, ctx: &Dict<Record>) -> (res: Result<
        String,
        PopError,
    >)
        ensures
            match res {
                Ok(v) => spec_expand_run(self@, record@, def@, ctx@) == Ok::<
                    Seq<char>,
                    SpecPopError,
                >(v@),
                Err(e) => spec_expand_run(self@, record@, def@, ctx@) == Err::<
                    Seq<char>,
                    SpecPopError,
                >(e@),
            },
    {
        let mut current: &Record = record;
        let mut i: usize = 0;
        assert(self@.path.skip(0) =~= self@.path);
        while i < self.path.len()
            invariant
                i <= self.path@.len(),
                spec_follow(self@.path, record@, def@, ctx@) == spec_follow(
                    self@.path.skip(i as int),
                    current@,
                    def@,
                    ctx@,
                ),
            decreases self.path@.len() - i,
        {
            assert(self@.path.skip(i as int)[0] == self.path@[i as int]@);
            assert(self@.path.skip(i as int).drop_first() =~= self@.path.skip(i + 1));
            match self.path[i].run(current, def, ctx) {
                Ok(next) => {
                    current = next;
                },
                Err(e) => {
                    return Err(e);
                },
            }
            i = i + 1;
        }
        assert(self@.path.skip(i as int) =~= Seq::<SpecLookup>::empty());
        match current.get(self.field.as_str()) {
            Some(v) => Ok(v.clone()),
            None => Err(PopError::MissingField { field: self.field.clone() }),
        }
    }
}

impl Comparison {
    /// Whether this comparison holds; see [`spec_matches`].
    pub fn matches(&self, record: &Record, def: &Definition, ctx: &Dict<Record>) -> (res: Result<
        bool,
        PopError,
    >)
        ensures
            match res {
                Ok(b) => spec_matches(self@, record@, def@, ctx@) == Ok::<bool, SpecPopError>(b),
                Err(e) => spec_matches(self@, record@, def@, ctx@) == Err::<bool, SpecPopError>(
                    e@,
                ),
            },
    {
        let v = match self.expand.run(record, def, ctx) {
            Ok(v) => v,
            Err(e) => {
                return Err(e);
            },
        };
        test_value(self.comparator, &self.value, &self.expand.field, v.as_str())
    }
}

/// Compares the value `v` of the field `field` with a literal; see [`spec_test_value`].
fn test_value(comparator: Comparator, value: &Value, field: &String, v: &str) -> (res: Result<bool, PopError>)
    ensures
        match res {
            Ok(b) => spec_test_value(comparator, value@, field@, v@) == Ok::<bool, SpecPopError>(b),
            Err(e) => spec_test_value(comparator, value@, field@, v@) == Err::<bool, SpecPopError>(e@),
        },
{
    match value {
        Value::Int(w) => match parse_i64(v) {
            Some(x) => Ok(comparator.compare(order_i64(x, *w))),
            None => Err(PopError::NotSignedInt { field: field.clone(), table: None }),
        },
        Value::Uint(w) => match parse_u64(v) {
            Some(x) => Ok(comparator.compare(order_u64(x, *w))),
            None => Err(PopError::NotUnsignedInt { field: field.clone(), table: None }),
        },
        Value::Text(t) => Ok(comparator.compare(order_str(v, t.as_str()))),
    }
}

impl WhereClause {
    /// Whether this clause holds of `record`, a record of the table `table_name`; see
    /// [`spec_where_matches`].
    pub fn matches(&self, record: &Record, table_name: &str) -> (res: Result<bool, PopError>)
        ensures
            match res {
                Ok(b) => spec_where_matches(self@, record@, table_name@) == Ok::<bool, SpecPopError>(b),
                Err(e) => spec_where_matches(self@, record@, table_name@) == Err::<bool, SpecPopError>(
                    e@,
                ),
            },
    {
        let v = match record.get(self.field.as_str()) {
            Some(v) => v,
            None => {
                return Err(PopError::MissingField { field: self.field.clone() });
            },
        };
        let table = table_name.to_owned();
        in_table(test_value(self.comparator, &self.value, &self.field, v.as_str()), &table)
    }
}

} // verus!
