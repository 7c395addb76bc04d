//! Parsers for templates, each proved to compute what the grammar in
//! [`crate::expr::grammar`] states.
use vstd::prelude::*;

use crate::expr::grammar::{
    escapable, escape_item, has_lit, is_ws, lit_open_block, lit_open_expr, scan, scan1, skip_ws,
    stops_at, Escapes, SpecStop, string_p, segment_p, terms_full, terms_strict, terms_loose, terms_index,
    terms_space, explicit_index_p, lookup_p, lookup_dot_p, lookups_p, expand_p, comparator_p,
    digit_run, digits_value, is_digit, uint_p, int_p, value_p, comparison_p, pad_lit, where_clause_p,
    if_tag_p, for_tag_p, finish_p, block_expr_p, close_block_p, lit_where, lit_if, lit_for, lit_in,
    lit_other, lit_end, lit_close_block, text_p, outer_brackets_p, expr_p,
    lit_close_expr, node_p, block_p, block_nodes_p, top_nodes_p, template_p,
};
use crate::expr::{
    Block, BlockExpr, Comparator, Comparison, Expand, Expr, ForTag, Lookup, Node, SpecLookup,
    SpecNode, Value, lookups_view, nodes_view, spec_close_name,
};
use crate::text::{chars_of, string_from_chars};
use vstd::string::StrSliceExecFns;

verus! {

/// The input is short enough that positions just past its end fit in a `usize`.
pub open spec fn wf_input(s: Seq<char>) -> bool {
    s.len() + 16 <= usize::MAX
}

fn is_ws_char(c: char) -> (res: bool)
    ensures
        res == is_ws(c),
{
    let u = c as u32;
    (0x9 <= u && u <= 0xd) || u == 0x20 || u == 0x85 || u == 0xa0 || u == 0x1680 || (0x2000 <= u
        && u <= 0x200a) || u == 0x2028 || u == 0x2029 || u == 0x202f || u == 0x205f || u == 0x3000
}

fn skip_ws_at(s: &Vec<char>, i: usize) -> (res: usize)
    requires
        i <= s@.len(),
    ensures
        res == skip_ws(s@, i as int),
        i <= res <= s@.len(),
{
    let mut j = i;
    while j < s.len() && is_ws_char(s[j])
        invariant
            i <= j <= s@.len(),
            skip_ws(s@, i as int) == skip_ws(s@, j as int),
        decreases s@.len() - j,
    {
        j = j + 1;
    }
    j
}

fn has_lit_at(s: &Vec<char>, i: usize, lit: &[char]) -> (res: bool)
    requires
        i <= s@.len(),
        wf_input(s@),
    ensures
        res == has_lit(s@, i as int, lit@),
{
    if lit.len() > s.len() - i {
        return false;
    }
    let mut k: usize = 0;
    while k < lit.len()
        invariant
            i + lit@.len() <= s@.len(),
            wf_input(s@),
            k <= lit@.len(),
            forall|m: int| 0 <= m < k ==> s@[i + m] == lit@[m],
        decreases lit@.len() - k,
    {
        if s[i + k] != lit[k] {
            assert(s@.subrange(i as int, i + lit@.len())[k as int] != lit@[k as int]);
            return false;
        }
        k = k + 1;
    }
    assert(s@.subrange(i as int, i + lit@.len()) =~= lit@);
    true
}

fn escapable_char(e: Escapes, c: char) -> (res: bool)
    ensures
        res == escapable(e, c),
{
    c == '\\' || c == '@' || c == '{' || c == '}' || match e {
        Escapes::Content => false,
        Escapes::Expr => c == '.',
        Escapes::Str(q) => c == '.' || c == q,
    }
}

fn escape_item_at(s: &Vec<char>, i: usize, e: Escapes) -> (res: Option<(char, usize)>)
    requires
        i <= s@.len(),
        wf_input(s@),
    ensures
        match res {
            Some((c, j)) => escape_item(s@, i as int, e) == Some((c, j as int)),
            None => escape_item(s@, i as int, e) is None,
        },
{
    if i < s.len() {
        if s[i] == '\\' {
            if i + 1 < s.len() && escapable_char(e, s[i + 1]) {
                Some((s[i + 1], i + 2))
            } else {
                None
            }
        } else {
            Some((s[i], i + 1))
        }
    } else {
        None
    }
}

/// Where a run of characters stops; see [`SpecStop`].
pub enum Stop {
    Text,
    Lit(Vec<char>),
    AnyOf(Vec<char>),
}

impl View for Stop {
    type V = SpecStop;

    open spec fn view(&self) -> SpecStop {
        match self {
            Stop::Text => SpecStop::Text,
            Stop::Lit(l) => SpecStop::Lit(l@),
            Stop::AnyOf(cs) => SpecStop::AnyOf(cs@),
        }
    }
}

fn contains_char(cs: &Vec<char>, c: char) -> (res: bool)
    ensures
        res == cs@.contains(c),
{
    let mut k: usize = 0;
    while k < cs.len()
        invariant
            k <= cs@.len(),
            forall|m: int| 0 <= m < k ==> cs@[m] != c,
        decreases cs@.len() - k,
    {
        if cs[k] == c {
            return true;
        }
        k = k + 1;
    }
    false
}

fn stops_at_pos(s: &Vec<char>, i: usize, st: &Stop) -> (res: bool)
    requires
        i <= s@.len(),
        wf_input(s@),
    ensures
        res == stops_at(s@, i as int, st@),
{
    match st {
        Stop::Text => {
            let a = ['{', '@'];
            let b = ['{', '{'];
            assert(a@ =~= lit_open_block());
            assert(b@ =~= lit_open_expr());
            has_lit_at(s, i, a.as_slice()) || has_lit_at(s, i, b.as_slice())
        },
        Stop::Lit(l) => has_lit_at(s, i, l.as_slice()),
        Stop::AnyOf(cs) => i < s.len() && contains_char(cs, s[i]),
    }
}

/// Reads characters until the stop, an invalid escape or the end of input.
fn scan_at(s: &Vec<char>, i: usize, e: Escapes, st: &Stop) -> (res: (Vec<char>, usize))
    requires
        i <= s@.len(),
        wf_input(s@),
    ensures
        (res.0@, res.1 as int) == scan(s@, i as int, e, st@),
        i <= res.1 <= s@.len(),
{
    let mut out: Vec<char> = Vec::new();
    let mut j = i;
    loop
        invariant
            i <= j <= s@.len(),
            wf_input(s@),
            scan(s@, i as int, e, st@) == (out@ + scan(s@, j as int, e, st@).0, scan(
                s@,
                j as int,
                e,
                st@,
            ).1),
        decreases s@.len() - j,
    {
        if j >= s.len() || stops_at_pos(s, j, st) {
            assert(out@ + Seq::<char>::empty() =~= out@);
            return (out, j);
        }
        match escape_item_at(s, j, e) {
            Some((c, k)) => {
                let ghost rest = scan(s@, k as int, e, st@);
                assert(out@ + (seq![c] + rest.0) =~= out@.push(c) + rest.0);
                out.push(c);
                j = k;
            },
            None => {
                assert(out@ + Seq::<char>::empty() =~= out@);
                return (out, j);
            },
        }
    }
}

fn scan1_at(s: &Vec<char>, i: usize, e: Escapes, st: &Stop) -> (res: Option<(Vec<char>, usize)>)
    requires
        i <= s@.len(),
        wf_input(s@),
    ensures
        match res {
            Some((r, k)) => scan1(s@, i as int, e, st@) == Some((r@, k as int)) && i < k <= s@.len(),
            None => scan1(s@, i as int, e, st@) is None,
        },
{
    let (r, k) = scan_at(s, i, e, st);
    if r.len() > 0 {
        proof {
            lemma_scan_progress(s@, i as int, e, st@);
        }
        Some((r, k))
    } else {
        None
    }
}

proof fn lemma_scan_progress(s: Seq<char>, i: int, e: Escapes, st: SpecStop)
    requires
        scan(s, i, e, st).0.len() > 0,
    ensures
        scan(s, i, e, st).1 > i,
    decreases s.len() - i,
{
    let (c, j) = escape_item(s, i, e).unwrap();
    if scan(s, j, e, st).0.len() > 0 {
        lemma_scan_progress(s, j, e, st);
    }
}

fn string_at(s: &Vec<char>, i: usize, q: char) -> (res: Option<(Vec<char>, usize)>)
    requires
        i <= s@.len(),
        wf_input(s@),
    ensures
        match res {
            Some((r, k)) => string_p(s@, i as int, q) == Some((r@, k as int)) && i < k <= s@.len(),
            None => string_p(s@, i as int, q) is None,
        },
{
    if i < s.len() && s[i] == q {
        let v = vec![q];
        assert(v@ =~= seq![q]);
        let st = Stop::AnyOf(v);
        match scan1_at(s, i + 1, Escapes::Str(q), &st) {
            Some((r, k)) => if k < s.len() && s[k] == q {
                Some((r, k + 1))
            } else {
                None
            },
            None => None,
        }
    } else {
        None
    }
}

fn segment_at(s: &Vec<char>, i: usize, e: Escapes, terms: &Vec<char>) -> (res: Option<(Vec<char>, usize)>)
    requires
        i <= s@.len(),
        wf_input(s@),
    ensures
        match res {
            Some((r, k)) => segment_p(s@, i as int, e, terms@) == Some((r@, k as int)) && i < k <= s@.len(),
            None => segment_p(s@, i as int, e, terms@) is None,
        },
{
    match string_at(s, i, '`') {
        Some(x) => Some(x),
        None => {
            let st = Stop::AnyOf(terms.clone());
            scan1_at(s, i, e, &st)
        },
    }
}

fn terms_full_vec() -> (res: Vec<char>)
    ensures
        res@ == terms_full(),
{
    let v = vec!['{', '@', ' ', '.', '}'];
    assert(v@ =~= terms_full());
    v
}

fn terms_strict_vec() -> (res: Vec<char>)
    ensures
        res@ == terms_strict(),
{
    let v = vec!['{', '@', ' ', '.', '}', '!', '=', '<', '>'];
    assert(v@ =~= terms_strict());
    v
}

fn terms_loose_vec() -> (res: Vec<char>)
    ensures
        res@ == terms_loose(),
{
    let v = vec!['{', '@', '.', '}'];
    assert(v@ =~= terms_loose());
    v
}

fn terms_index_vec() -> (res: Vec<char>)
    ensures
        res@ == terms_index(),
{
    let v = vec!['@', ' ', '.'];
    assert(v@ =~= terms_index());
    v
}

fn terms_space_vec() -> (res: Vec<char>)
    ensures
        res@ == terms_space(),
{
    let v = vec![' '];
    assert(v@ =~= terms_space());
    v
}

fn explicit_index_at(s: &Vec<char>, i: usize) -> (res: Option<(Vec<char>, usize)>)
    requires
        i <= s@.len(),
        wf_input(s@),
    ensures
        match res {
            Some((r, k)) => explicit_index_p(s@, i as int) == Some((r@, k as int)) && i < k <= s@.len(),
            None => explicit_index_p(s@, i as int) is None,
        },
{
    if i < s.len() && s[i] == '@' {
        segment_at(s, i + 1, Escapes::Expr, &terms_index_vec())
    } else {
        None
    }
}

fn lookup_at(s: &Vec<char>, i: usize) -> (res: Option<(Lookup, usize)>)
    requires
        i <= s@.len(),
        wf_input(s@),
    ensures
        match res {
            Some((l, k)) => lookup_p(s@, i as int) == Some((l@, k as int)) && i < k <= s@.len(),
            None => lookup_p(s@, i as int) is None,
        },
{
    match segment_at(s, i, Escapes::Expr, &terms_full_vec()) {
        Some((t, j)) => match explicit_index_at(s, j) {
            Some((x, k)) => Some(
                (Lookup { index: Some(string_from_chars(&x)), table_name: string_from_chars(&t) }, k),
            ),
            None => Some((Lookup { index: None, table_name: string_from_chars(&t) }, j)),
        },
        None => None,
    }
}

fn lookup_dot_at(s: &Vec<char>, i: usize) -> (res: Option<(Lookup, usize)>)
    requires
        i <= s@.len(),
        wf_input(s@),
    ensures
        match res {
            Some((l, k)) => lookup_dot_p(s@, i as int) == Some((l@, k as int)) && i < k <= s@.len(),
            None => lookup_dot_p(s@, i as int) is None,
        },
{
    match lookup_at(s, i) {
        Some((l, j)) => if j < s.len() && s[j] == '.' {
            Some((l, j + 1))
        } else {
            None
        },
        None => None,
    }
}

fn lookups_at(s: &Vec<char>, i: usize) -> (res: (Vec<Lookup>, usize))
    requires
        i <= s@.len(),
        wf_input(s@),
    ensures
        (lookups_view(res.0@), res.1 as int) == lookups_p(s@, i as int, 0),
        i <= res.1 <= s@.len(),
{
    let mut out: Vec<Lookup> = Vec::new();
    let mut j = i;
    let mut n: usize = 0;
    loop
        invariant
            i <= j <= s@.len(),
            wf_input(s@),
            n <= 100,
            out@.len() == n,
            lookups_p(s@, i as int, 0) == (lookups_view(out@) + lookups_p(s@, j as int, n as int).0,
            lookups_p(s@, j as int, n as int).1),
        decreases 100 - n,
    {
        if n >= 100 {
            assert(lookups_view(out@) + Seq::<SpecLookup>::empty() =~= lookups_view(out@));
            return (out, j);
        }
        match lookup_dot_at(s, j) {
            Some((l, k)) => {
                let ghost prev = out@;
                let ghost rest = lookups_p(s@, k as int, n + 1);
                let ghost lv = l@;
                out.push(l);
                assert(lookups_view(out@) =~= lookups_view(prev).push(lv));
                assert(lookups_view(prev) + (seq![lv] + rest.0) =~= lookups_view(out@) + rest.0);
                j = k;
                n = n + 1;
            },
            None => {
                assert(lookups_view(out@) + Seq::<SpecLookup>::empty() =~= lookups_view(out@));
                return (out, j);
            },
        }
    }
}

fn expand_at(s: &Vec<char>, i: usize, strict: bool) -> (res: Option<(Expand, usize)>)
    requires
        i <= s@.len(),
        wf_input(s@),
    ensures
        match res {
            Some((x, k)) => expand_p(s@, i as int, strict) == Some((x@, k as int)) && i < k <= s@.len(),
            None => expand_p(s@, i as int, strict) is None,
        },
{
    let (path, j) = lookups_at(s, i);
    if path.len() > 0 {
        let path_terms = if strict {
            terms_strict_vec()
        } else {
            terms_full_vec()
        };
        match segment_at(s, j, Escapes::Expr, &path_terms) {
            Some((f, k)) => {
                let k2 = skip_ws_at(s, k);
                return Some((Expand { field: string_from_chars(&f), path }, k2));
            },
            None => {},
        }
    }
    let terms = if strict {
        terms_strict_vec()
    } else {
        terms_loose_vec()
    };
    match segment_at(s, i, Escapes::Expr, &terms) {
        Some((f, k)) => {
            let k2 = skip_ws_at(s, k);
            let x = Expand { field: string_from_chars(&f), path: Vec::new() };
            assert(lookups_view(x.path@) =~= Seq::empty());
            Some((x, k2))
        },
        None => None,
    }
}

fn comparator_at(s: &Vec<char>, i: usize) -> (res: Option<(Comparator, usize)>)
    requires
        i <= s@.len(),
        wf_input(s@),
    ensures
        match res {
            Some((c, k)) => comparator_p(s@, i as int) == Some((c, k as int)) && i < k <= s@.len(),
            None => comparator_p(s@, i as int) is None,
        },
{
    let ne = ['!', '='];
    let ge = ['>', '='];
    let le = ['<', '='];
    let gt = ['>'];
    let lt = ['<'];
    let eq = ['='];
    assert(ne@ =~= seq!['!', '=']);
    assert(ge@ =~= seq!['>', '=']);
    assert(le@ =~= seq!['<', '=']);
    assert(gt@ =~= seq!['>']);
    assert(lt@ =~= seq!['<']);
    assert(eq@ =~= seq!['=']);
    if has_lit_at(s, i, ne.as_slice()) {
        Some((Comparator::NotEqual, i + 2))
    } else if has_lit_at(s, i, ge.as_slice()) {
        Some((Comparator::GreaterThanOrEqual, i + 2))
    } else if has_lit_at(s, i, le.as_slice()) {
        Some((Comparator::LessThanOrEqual, i + 2))
    } else if has_lit_at(s, i, gt.as_slice()) {
        Some((Comparator::GreaterThan, i + 1))
    } else if has_lit_at(s, i, lt.as_slice()) {
        Some((Comparator::LessThan, i + 1))
    } else if has_lit_at(s, i, eq.as_slice()) {
        Some((Comparator::Equal, i + 1))
    } else {
        None
    }
}

fn digit_run_at(s: &Vec<char>, i: usize) -> (res: usize)
    requires
        i <= s@.len(),
    ensures
        res == digit_run(s@, i as int),
        i <= res <= s@.len(),
        forall|m: int| i <= m < res ==> is_digit(s@[m]),
{
    let mut j = i;
    while j < s.len() && '0' <= s[j] && s[j] <= '9'
        invariant
            i <= j <= s@.len(),
            digit_run(s@, i as int) == digit_run(s@, j as int),
            forall|m: int| i <= m < j ==> is_digit(s@[m]),
        decreases s@.len() - j,
    {
        j = j + 1;
    }
    j
}

/// The value of the digits in `s[j..k]`, if it is at most `limit`.
fn digits_value_upto(s: &Vec<char>, j: usize, k: usize, limit: u64) -> (res: Option<u64>)
    requires
        j <= k <= s@.len(),
        forall|m: int| j <= m < k ==> is_digit(s@[m]),
    ensures
        match res {
            Some(v) => v == digits_value(s@.subrange(j as int, k as int)) && v <= limit,
            None => digits_value(s@.subrange(j as int, k as int)) > limit,
        },
{
    let mut acc: u64 = 0;
    let mut over = false;
    let mut m = j;
    assert(s@.subrange(j as int, j as int) =~= Seq::<char>::empty());
    while m < k
        invariant
            j <= m <= k <= s@.len(),
            forall|x: int| j <= x < k ==> is_digit(s@[x]),
            !over ==> acc == digits_value(s@.subrange(j as int, m as int)) && acc <= limit,
            over ==> digits_value(s@.subrange(j as int, m as int)) > limit,
        decreases k - m,
    {
        let ghost prev = digits_value(s@.subrange(j as int, m as int));
        assert(s@.subrange(j as int, m + 1).drop_last() =~= s@.subrange(j as int, m as int));
        assert(s@.subrange(j as int, m + 1).last() == s@[m as int]);
        let d = (s[m] as u32 - '0' as u32) as u64;
        assert(digits_value(s@.subrange(j as int, m + 1)) == prev * 10 + d);
        if !over {
            match acc.checked_mul(10) {
                Some(a) => match a.checked_add(d) {
                    Some(b) => {
                        if b <= limit {
                            acc = b;
                        } else {
                            over = true;
                        }
                    },
                    None => {
                        over = true;
                    },
                },
                None => {
                    over = true;
                },
            }
        }
        m = m + 1;
    }
    if over {
        None
    } else {
        Some(acc)
    }
}

pub(crate) fn uint_at(s: &Vec<char>, i: usize) -> (res: Option<(u64, usize)>)
    requires
        i <= s@.len(),
    ensures
        match res {
            Some((v, k)) => uint_p(s@, i as int) == Some((v, k as int)) && i < k <= s@.len(),
            None => uint_p(s@, i as int) is None,
        },
{
    let k = digit_run_at(s, i);
    if i < k {
        match digits_value_upto(s, i, k, u64::MAX) {
            Some(v) => Some((v, k)),
            None => None,
        }
    } else {
        None
    }
}

pub(crate) fn int_at(s: &Vec<char>, i: usize) -> (res: Option<(i64, usize)>)
    requires
        i <= s@.len(),
    ensures
        match res {
            Some((v, k)) => int_p(s@, i as int) == Some((v, k as int)) && i < k <= s@.len(),
            None => int_p(s@, i as int) is None,
        },
{
    let neg = i < s.len() && s[i] == '-';
    let signed = i < s.len() && (s[i] == '-' || s[i] == '+');
    let j = if signed {
        i + 1
    } else {
        i
    };
    let k = digit_run_at(s, j);
    if j < k {
        let limit: u64 = if neg {
            0x8000_0000_0000_0000
        } else {
            0x7fff_ffff_ffff_ffff
        };
        match digits_value_upto(s, j, k, limit) {
            Some(v) => {
                let r: i64 = if neg {
                    if v == 0x8000_0000_0000_0000 {
                        i64::MIN
                    } else {
                        0 - (v as i64)
                    }
                } else {
                    v as i64
                };
                Some((r, k))
            },
            None => None,
        }
    } else {
        None
    }
}

fn value_at(s: &Vec<char>, i: usize) -> (res: Option<(Value, usize)>)
    requires
        i <= s@.len(),
        wf_input(s@),
    ensures
        match res {
            Some((v, k)) => value_p(s@, i as int) == Some((v@, k as int)) && i < k <= s@.len(),
            None => value_p(s@, i as int) is None,
        },
{
    match string_at(s, i, '"') {
        Some((t, j)) => Some((Value::Text(string_from_chars(&t)), j)),
        None => match uint_at(s, i) {
            Some((u, j)) => Some((Value::Uint(u), j)),
            None => match int_at(s, i) {
                Some((v, j)) => Some((Value::Int(v), j)),
                None => None,
            },
        },
    }
}

fn comparison_at(s: &Vec<char>, i: usize) -> (res: Option<(Comparison, usize)>)
    requires
        i <= s@.len(),
        wf_input(s@),
    ensures
        match res {
            Some((c, k)) => comparison_p(s@, i as int) == Some((c@, k as int)) && i < k <= s@.len(),
            None => comparison_p(s@, i as int) is None,
        },
{
    match expand_at(s, i, true) {
        Some((e, j)) => match comparator_at(s, skip_ws_at(s, j)) {
            Some((c, k)) => match value_at(s, skip_ws_at(s, k)) {
                Some((v, m)) => Some((Comparison { expand: e, comparator: c, value: v }, m)),
                None => None,
            },
            None => None,
        },
        None => None,
    }
}

fn pad_lit_at(s: &Vec<char>, i: usize, lit: &[char]) -> (res: Option<usize>)
    requires
        i <= s@.len(),
        wf_input(s@),
    ensures
        match res {
            Some(k) => pad_lit(s@, i as int, lit@) == Some(k as int) && i <= k <= s@.len(),
            None => pad_lit(s@, i as int, lit@) is None,
        },
{
    let j = skip_ws_at(s, i);
    if has_lit_at(s, j, lit) {
        Some(skip_ws_at(s, j + lit.len()))
    } else {
        None
    }
}

fn where_clause_at(s: &Vec<char>, i: usize) -> (res: Option<(Comparison, usize)>)
    requires
        i <= s@.len(),
        wf_input(s@),
    ensures
        match res {
            Some((c, k)) => where_clause_p(s@, i as int) == Some((c@, k as int)) && i < k <= s@.len(),
            None => where_clause_p(s@, i as int) is None,
        },
{
    let w = ['w', 'h', 'e', 'r', 'e'];
    assert(w@ =~= lit_where());
    match pad_lit_at(s, i, w.as_slice()) {
        Some(j) => comparison_at(s, j),
        None => None,
    }
}

fn if_tag_at(s: &Vec<char>, i: usize) -> (res: Option<(Comparison, usize)>)
    requires
        i <= s@.len(),
        wf_input(s@),
    ensures
        match res {
            Some((c, k)) => if_tag_p(s@, i as int) == Some((c@, k as int)) && i < k <= s@.len(),
            None => if_tag_p(s@, i as int) is None,
        },
{
    let w = ['i', 'f'];
    assert(w@ =~= lit_if());
    match pad_lit_at(s, i, w.as_slice()) {
        Some(j) => comparison_at(s, j),
        None => None,
    }
}

fn for_tag_at(s: &Vec<char>, i: usize) -> (res: Option<(ForTag, usize)>)
    requires
        i <= s@.len(),
        wf_input(s@),
    ensures
        match res {
            Some((f, k)) => for_tag_p(s@, i as int) == Some((f@, k as int)) && i < k <= s@.len(),
            None => for_tag_p(s@, i as int) is None,
        },
{
    let w_for = ['f', 'o', 'r'];
    let w_other = ['o', 't', 'h', 'e', 'r', ' '];
    let w_space = [' '];
    let w_in = ['i', 'n'];
    assert(w_for@ =~= lit_for());
    assert(w_other@ =~= lit_other());
    assert(w_space@ =~= seq![' ']);
    assert(w_in@ =~= lit_in());
    let j = match pad_lit_at(s, i, w_for.as_slice()) {
        Some(j) => j,
        None => return None,
    };
    let (other, j2) = if has_lit_at(s, j, w_other.as_slice()) {
        (true, j + 6)
    } else {
        (false, j)
    };
    let (name, j3) = match segment_at(s, j2, Escapes::Expr, &terms_space_vec()) {
        Some(x) => x,
        None => return None,
    };
    if !has_lit_at(s, j3, w_space.as_slice()) {
        return None;
    }
    let j5 = match pad_lit_at(s, j3 + 1, w_in.as_slice()) {
        Some(j5) => j5,
        None => return None,
    };
    let (l, j6) = match lookup_at(s, j5) {
        Some(x) => x,
        None => return None,
    };
    let (w, j8) = match where_clause_at(s, skip_ws_at(s, j6)) {
        Some((w, j7)) => (Some(w), skip_ws_at(s, j7)),
        None => (None, j6),
    };
    Some(
        (
            ForTag {
                new_context_name: string_from_chars(&name),
                lookup: l,
                other_clause: other,
                where_clause: w,
            },
            j8,
        ),
    )
}

fn finish_at(s: &Vec<char>, j: usize) -> (res: Option<usize>)
    requires
        j <= s@.len(),
        wf_input(s@),
    ensures
        match res {
            Some(k) => finish_p(s@, j as int) == Some(k as int) && j < k <= s@.len(),
            None => finish_p(s@, j as int) is None,
        },
{
    let c = ['@', '}'];
    assert(c@ =~= lit_close_block());
    let k = skip_ws_at(s, j);
    if has_lit_at(s, k, c.as_slice()) {
        Some(k + 2)
    } else {
        None
    }
}

fn block_expr_at(s: &Vec<char>, i: usize) -> (res: Option<(BlockExpr, usize)>)
    requires
        i <= s@.len(),
        wf_input(s@),
    ensures
        match res {
            Some((b, k)) => block_expr_p(s@, i as int) == Some((b@, k as int)) && i < k <= s@.len(),
            None => block_expr_p(s@, i as int) is None,
        },
{
    let open = ['{', '@'];
    let w_for = ['f', 'o', 'r', ' '];
    let w_if = ['i', 'f', ' '];
    assert(open@ =~= lit_open_block());
    assert(w_for@ =~= lit_for() + seq![' ']);
    assert(w_if@ =~= lit_if() + seq![' ']);
    if !has_lit_at(s, i, open.as_slice()) {
        return None;
    }
    let c = skip_ws_at(s, i + 2);
    if has_lit_at(s, c, w_for.as_slice()) {
        match for_tag_at(s, c) {
            Some((f, j)) => match finish_at(s, j) {
                Some(k) => Some((BlockExpr::ForTag(f), k)),
                None => None,
            },
            None => None,
        }
    } else if has_lit_at(s, c, w_if.as_slice()) {
        match if_tag_at(s, c) {
            Some((f, j)) => match finish_at(s, j) {
                Some(k) => Some((BlockExpr::If(f), k)),
                None => None,
            },
            None => None,
        }
    } else {
        None
    }
}

fn close_block_at(s: &Vec<char>, i: usize, name: &[char]) -> (res: Option<usize>)
    requires
        i <= s@.len(),
        wf_input(s@),
    ensures
        match res {
            Some(k) => close_block_p(s@, i as int, name@) == Some(k as int) && i < k <= s@.len(),
            None => close_block_p(s@, i as int, name@) is None,
        },
{
    let open = ['{', '@'];
    let end = ['e', 'n', 'd', ' '];
    let close = ['@', '}'];
    assert(open@ =~= lit_open_block());
    assert(end@ =~= lit_end());
    assert(close@ =~= lit_close_block());
    if !has_lit_at(s, i, open.as_slice()) {
        return None;
    }
    let j = skip_ws_at(s, i + 2);
    if has_lit_at(s, j, end.as_slice()) && has_lit_at(s, j + 4, name) {
        let k = skip_ws_at(s, j + 4 + name.len());
        if has_lit_at(s, k, close.as_slice()) {
            Some(k + 2)
        } else {
            None
        }
    } else {
        None
    }
}

fn text_at(s: &Vec<char>, i: usize) -> (res: Option<(Vec<char>, usize)>)
    requires
        i <= s@.len(),
        wf_input(s@),
    ensures
        match res {
            Some((t, k)) => text_p(s@, i as int) == Some((t@, k as int)) && i < k <= s@.len(),
            None => text_p(s@, i as int) is None,
        },
{
    scan1_at(s, i, Escapes::Content, &Stop::Text)
}

fn outer_brackets_at(s: &Vec<char>, i: usize, open: &[char], close: &[char]) -> (res: Option<
    (usize, usize, usize),
>)
    requires
        i <= s@.len(),
        wf_input(s@),
    ensures
        match res {
            Some((a, b, e)) => outer_brackets_p(s@, i as int, open@, close@) == Some(
                (a as int, b as int, e as int),
            ) && i <= a < b <= e <= s@.len(),
            None => outer_brackets_p(s@, i as int, open@, close@) is None,
        },
{
    if !has_lit_at(s, i, open) {
        return None;
    }
    let a = i + open.len();
    let st = Stop::Lit(vstd::slice::slice_to_vec(close));
    let (r, b) = scan_at(s, a, Escapes::Expr, &st);
    if r.len() > 0 && has_lit_at(s, b, close) {
        proof {
            lemma_scan_progress(s@, a as int, Escapes::Expr, st@);
        }
        Some((a, b, b + close.len()))
    } else {
        None
    }
}

/// The characters `s[a..b]`.
pub(crate) fn sub_chars(s: &Vec<char>, a: usize, b: usize) -> (res: Vec<char>)
    requires
        a <= b <= s@.len(),
    ensures
        res@ == s@.subrange(a as int, b as int),
{
    let mut out: Vec<char> = Vec::new();
    let mut m = a;
    while m < b
        invariant
            a <= m <= b <= s@.len(),
            out@ == s@.subrange(a as int, m as int),
        decreases b - m,
    {
        out.push(s[m]);
        assert(s@.subrange(a as int, m as int).push(s@[m as int]) =~= s@.subrange(
            a as int,
            m + 1,
        ));
        m = m + 1;
    }
    out
}

fn expr_at(s: &Vec<char>, i: usize) -> (res: Option<(Expr, usize)>)
    requires
        i <= s@.len(),
        wf_input(s@),
    ensures
        match res {
            Some((x, k)) => expr_p(s@, i as int) == Some((x@, k as int)) && i < k <= s@.len(),
            None => expr_p(s@, i as int) is None,
        },
{
    let open = ['{', '{'];
    let close = ['}', '}'];
    assert(open@ =~= lit_open_expr());
    assert(close@ =~= lit_close_expr());
    match outer_brackets_at(s, i, open.as_slice(), close.as_slice()) {
        Some((a, b, e)) => {
            let inner = sub_chars(s, a, b);
            let p = skip_ws_at(&inner, 0);
            match expand_at(&inner, p, false) {
                Some((x, q)) => if skip_ws_at(&inner, q) == inner.len() {
                    Some((Expr::Expand(x), e))
                } else {
                    None
                },
                None => None,
            }
        },
        None => None,
    }
}

fn close_name_chars(be: &BlockExpr) -> (res: Vec<char>)
    ensures
        res@ == spec_close_name(be@),
{
    match be {
        BlockExpr::ForTag(_) => {
            let v = vec!['f', 'o', 'r'];
            assert(v@ =~= seq!['f', 'o', 'r']);
            v
        },
        BlockExpr::If(_) => {
            let v = vec!['i', 'f'];
            assert(v@ =~= seq!['i', 'f']);
            v
        },
    }
}

fn node_at(s: &Vec<char>, i: usize) -> (res: Option<(Node, usize)>)
    requires
        i <= s@.len(),
        wf_input(s@),
    ensures
        match res {
            Some((n, k)) => node_p(s@, i as int) == Some((n@, k as int)) && i < k <= s@.len(),
            None => node_p(s@, i as int) is None,
        },
    decreases s@.len() - i, 2int,
{
    match block_at(s, i) {
        Some(b) => Some(b),
        None => match expr_at(s, i) {
            Some((x, j)) => Some((Node::Expr(x), j)),
            None => match text_at(s, i) {
                Some((t, j)) => Some((Node::Text(string_from_chars(&t)), j)),
                None => None,
            },
        },
    }
}

fn block_at(s: &Vec<char>, i: usize) -> (res: Option<(Node, usize)>)
    requires
        i <= s@.len(),
        wf_input(s@),
    ensures
        match res {
            Some((n, k)) => block_p(s@, i as int) == Some((n@, k as int)) && i < k <= s@.len(),
            None => block_p(s@, i as int) is None,
        },
    decreases s@.len() - i, 1int,
{
    match block_expr_at(s, i) {
        Some((be, j)) => {
            let name = close_name_chars(&be);
            let (ns, k) = block_nodes_at(s, j, name.as_slice());
            match close_block_at(s, k, name.as_slice()) {
                Some(m) => Some((Node::Block(Block { expr: be, nodes: ns }), m)),
                None => None,
            }
        },
        None => None,
    }
}

fn block_nodes_at(s: &Vec<char>, i: usize, name: &[char]) -> (res: (Vec<Node>, usize))
    requires
        i <= s@.len(),
        wf_input(s@),
    ensures
        (nodes_view(res.0@), res.1 as int) == block_nodes_p(s@, i as int, name@),
        i <= res.1 <= s@.len(),
    decreases s@.len() - i, 3int,
{
    let mut out: Vec<Node> = Vec::new();
    let mut j = i;
    loop
        invariant
            i <= j <= s@.len(),
            wf_input(s@),
            block_nodes_p(s@, i as int, name@) == (nodes_view(out@) + block_nodes_p(
                s@,
                j as int,
                name@,
            ).0, block_nodes_p(s@, j as int, name@).1),
        decreases s@.len() - j,
    {
        if close_block_at(s, j, name).is_some() {
            assert(nodes_view(out@) + Seq::<SpecNode>::empty() =~= nodes_view(out@));
            return (out, j);
        }
        match node_at(s, j) {
            Some((n, k)) => {
                let ghost prev = out@;
                let ghost rest = block_nodes_p(s@, k as int, name@);
                let ghost nv = n@;
                out.push(n);
                assert(out@.drop_last() =~= prev);
                assert(nodes_view(out@) == nodes_view(prev).push(nv));
                assert(nodes_view(prev) + (seq![nv] + rest.0) =~= nodes_view(out@) + rest.0);
                j = k;
            },
            None => {
                assert(nodes_view(out@) + Seq::<SpecNode>::empty() =~= nodes_view(out@));
                return (out, j);
            },
        }
    }
}

fn top_nodes_at(s: &Vec<char>, i: usize) -> (res: (Vec<Node>, usize))
    requires
        i <= s@.len(),
        wf_input(s@),
    ensures
        (nodes_view(res.0@), res.1 as int) == top_nodes_p(s@, i as int),
        i <= res.1 <= s@.len(),
{
    let mut out: Vec<Node> = Vec::new();
    let mut j = i;
    loop
        invariant
            i <= j <= s@.len(),
            wf_input(s@),
            top_nodes_p(s@, i as int) == (nodes_view(out@) + top_nodes_p(s@, j as int).0,
            top_nodes_p(s@, j as int).1),
        decreases s@.len() - j,
    {
        match node_at(s, j) {
            Some((n, k)) => {
                let ghost prev = out@;
                let ghost rest = top_nodes_p(s@, k as int);
                let ghost nv = n@;
                out.push(n);
                assert(out@.drop_last() =~= prev);
                assert(nodes_view(out@) == nodes_view(prev).push(nv));
                assert(nodes_view(prev) + (seq![nv] + rest.0) =~= nodes_view(out@) + rest.0);
                j = k;
            },
            None => {
                assert(nodes_view(out@) + Seq::<SpecNode>::empty() =~= nodes_view(out@));
                return (out, j);
            },
        }
    }
}

/// The input did not match the grammar.
#[derive(Debug, Clone, Copy, PartialEq, Eq)]
pub struct ParseError;

/// What was read, and the input that remains after it.
pub type ParseResult<'i, T> = Result<(T, &'i str), ParseError>;

/// `r` is the spec outcome of parsing `s` from its start, and `(x, rest)` is what the
/// parser returned: the value read and the unread remainder of `s`.
pub open spec fn parsed_as<T>(r: Option<(T, int)>, s: Seq<char>, x: T, rest: Seq<char>) -> bool {
    &&& r is Some
    &&& r.unwrap().0 == x
    &&& 0 <= r.unwrap().1 <= s.len()
    &&& rest == s.subrange(r.unwrap().1, s.len() as int)
}

fn rest_of<'i>(input: &'i str, chars: &Vec<char>, k: usize) -> (res: &'i str)
    requires
        chars@ == input@,
        k <= chars@.len(),
    ensures
        res@ == input@.subrange(k as int, input@.len() as int),
{
    input.substring_char(k, chars.len())
}

/// The escapes allowed in expressions: `\\ \@ \{ \} \.`.
pub fn expr_escape() -> (res: Escapes)
    ensures
        res == Escapes::Expr,
{
    Escapes::Expr
}

/// The escapes allowed in plain text: `\\ \@ \{ \}`.
pub fn content_escape() -> (res: Escapes)
    ensures
        res == Escapes::Content,
{
    Escapes::Content
}

/// The escapes allowed in a string quoted by `quote`: those of expressions and the quote.
pub fn str_escape(quote: char) -> (res: Escapes)
    ensures
        res == Escapes::Str(quote),
{
    Escapes::Str(quote)
}

/// Parses a whole template into its nodes.
pub fn template(input: &str) -> (res: ParseResult<Vec<Node>>)
    requires
        wf_input(input@),
    ensures
        match res {
            Ok((ns, rest)) => template_p(input@) == Some(nodes_view(ns@)) && rest@.len() == 0,
            Err(_) => template_p(input@) is None,
        },
{
    let s = chars_of(input);
    let (ns, k) = top_nodes_at(&s, 0);
    if ns.len() > 0 && k == s.len() {
        let rest = rest_of(input, &s, k);
        Ok((ns, rest))
    } else {
        Err(ParseError)
    }
}

/// Parses one node (a block, an expression or text) at the start of `input`.
pub fn node(input: &str) -> (res: ParseResult<Node>)
    requires
        wf_input(input@),
    ensures
        match res {
            Ok((n, rest)) => parsed_as(node_p(input@, 0), input@, n@, rest@),
            Err(_) => node_p(input@, 0) is None,
        },
{
    let s = chars_of(input);
    match node_at(&s, 0) {
        Some((n, k)) => Ok((n, rest_of(input, &s, k))),
        None => Err(ParseError),
    }
}

/// Parses plain text at the start of `input`, up to `{@` or `{{`.
pub fn text(input: &str) -> (res: ParseResult<String>)
    requires
        wf_input(input@),
    ensures
        match res {
            Ok((t, rest)) => parsed_as(text_p(input@, 0), input@, t@, rest@),
            Err(_) => text_p(input@, 0) is None,
        },
{
    let s = chars_of(input);
    match text_at(&s, 0) {
        Some((t, k)) => Ok((string_from_chars(&t), rest_of(input, &s, k))),
        None => Err(ParseError),
    }
}

/// Reads `open inner close` at the start of `input` and returns `inner` as written,
/// escapes included.
pub fn outer_brackets<'i>(open: &str, close: &str, input: &'i str) -> (res: ParseResult<'i, String>)
    requires
        wf_input(input@),
    ensures
        match res {
            Ok((inner, rest)) => {
                let r = outer_brackets_p(input@, 0, open@, close@);
                &&& r is Some
                &&& inner@ == input@.subrange(r.unwrap().0, r.unwrap().1)
                &&& rest@ == input@.subrange(r.unwrap().2, input@.len() as int)
            },
            Err(_) => outer_brackets_p(input@, 0, open@, close@) is None,
        },
{
    let s = chars_of(input);
    let o = chars_of(open);
    let c = chars_of(close);
    match outer_brackets_at(&s, 0, o.as_slice(), c.as_slice()) {
        Some((a, b, e)) => Ok((string_from_chars(&sub_chars(&s, a, b)), rest_of(input, &s, e))),
        None => Err(ParseError),
    }
}

/// Parses `{{ expansion }}` at the start of `input`.
pub fn expr(input: &str) -> (res: ParseResult<Expr>)
    requires
        wf_input(input@),
    ensures
        match res {
            Ok((x, rest)) => parsed_as(expr_p(input@, 0), input@, x@, rest@),
            Err(_) => expr_p(input@, 0) is None,
        },
{
    let s = chars_of(input);
    match expr_at(&s, 0) {
        Some((x, k)) => Ok((x, rest_of(input, &s, k))),
        None => Err(ParseError),
    }
}

/// Parses a whole block (opening tag, contents, closing tag) at the start of `input`.
pub fn block(input: &str) -> (res: ParseResult<Block>)
    requires
        wf_input(input@),
    ensures
        match res {
            Ok((b, rest)) => parsed_as(
                block_p(input@, 0),
                input@,
                SpecNode::Block(b.expr@, nodes_view(b.nodes@)),
                rest@,
            ),
            Err(_) => block_p(input@, 0) is None,
        },
{
    let s = chars_of(input);
    match block_at(&s, 0) {
        Some((Node::Block(b), k)) => Ok((b, rest_of(input, &s, k))),
        _ => Err(ParseError),
    }
}

/// Reads the closing tag `{@ end name @}` at the start of `input` and returns it as written.
pub fn close_block_expr<'i>(name: &str, input: &'i str) -> (res: ParseResult<'i, String>)
    requires
        wf_input(input@),
    ensures
        match res {
            Ok((m, rest)) => {
                let r = close_block_p(input@, 0, name@);
                &&& r is Some
                &&& m@ == input@.subrange(0, r.unwrap())
                &&& rest@ == input@.subrange(r.unwrap(), input@.len() as int)
            },
            Err(_) => close_block_p(input@, 0, name@) is None,
        },
{
    let s = chars_of(input);
    let n = chars_of(name);
    match close_block_at(&s, 0, n.as_slice()) {
        Some(k) => Ok((string_from_chars(&sub_chars(&s, 0, k)), rest_of(input, &s, k))),
        None => Err(ParseError),
    }
}

/// Parses the opening tag of a block, `{@ for ... @}` or `{@ if ... @}`.
pub fn block_expr(input: &str) -> (res: ParseResult<BlockExpr>)
    requires
        wf_input(input@),
    ensures
        match res {
            Ok((b, rest)) => parsed_as(block_expr_p(input@, 0), input@, b@, rest@),
            Err(_) => block_expr_p(input@, 0) is None,
        },
{
    let s = chars_of(input);
    match block_expr_at(&s, 0) {
        Some((b, k)) => Ok((b, rest_of(input, &s, k))),
        None => Err(ParseError),
    }
}

/// Reads the end of an opening tag: optional whitespace, then `@}`.
pub fn finish_block_tag(input: &str) -> (res: ParseResult<()>)
    requires
        wf_input(input@),
    ensures
        match res {
            Ok((_, rest)) => parsed_as(
                match finish_p(input@, 0) {
                    Some(k) => Some(((), k)),
                    None => None,
                },
                input@,
                (),
                rest@,
            ),
            Err(_) => finish_p(input@, 0) is None,
        },
{
    let s = chars_of(input);
    match finish_at(&s, 0) {
        Some(k) => Ok(((), rest_of(input, &s, k))),
        None => Err(ParseError),
    }
}

/// Parses `for [other] name in lookup [where comparison]`.
pub fn for_tag(input: &str) -> (res: ParseResult<ForTag>)
    requires
        wf_input(input@),
    ensures
        match res {
            Ok((f, rest)) => parsed_as(for_tag_p(input@, 0), input@, f@, rest@),
            Err(_) => for_tag_p(input@, 0) is None,
        },
{
    let s = chars_of(input);
    match for_tag_at(&s, 0) {
        Some((f, k)) => Ok((f, rest_of(input, &s, k))),
        None => Err(ParseError),
    }
}

/// Parses `if comparison`.
pub fn if_tag(input: &str) -> (res: ParseResult<Comparison>)
    requires
        wf_input(input@),
    ensures
        match res {
            Ok((c, rest)) => parsed_as(if_tag_p(input@, 0), input@, c@, rest@),
            Err(_) => if_tag_p(input@, 0) is None,
        },
{
    let s = chars_of(input);
    match if_tag_at(&s, 0) {
        Some((c, k)) => Ok((c, rest_of(input, &s, k))),
        None => Err(ParseError),
    }
}

/// Parses `where comparison`.
pub fn where_clause(input: &str) -> (res: ParseResult<Comparison>)
    requires
        wf_input(input@),
    ensures
        match res {
            Ok((c, rest)) => parsed_as(where_clause_p(input@, 0), input@, c@, rest@),
            Err(_) => where_clause_p(input@, 0) is None,
        },
{
    let s = chars_of(input);
    match where_clause_at(&s, 0) {
        Some((c, k)) => Ok((c, rest_of(input, &s, k))),
        None => Err(ParseError),
    }
}

/// Parses `expand comparator value`.
pub fn comparison(input: &str) -> (res: ParseResult<Comparison>)
    requires
        wf_input(input@),
    ensures
        match res {
            Ok((c, rest)) => parsed_as(comparison_p(input@, 0), input@, c@, rest@),
            Err(_) => comparison_p(input@, 0) is None,
        },
{
    let s = chars_of(input);
    match comparison_at(&s, 0) {
        Some((c, k)) => Ok((c, rest_of(input, &s, k))),
        None => Err(ParseError),
    }
}

/// Parses the literal on the right of a comparison.
pub fn value(input: &str) -> (res: ParseResult<Value>)
    requires
        wf_input(input@),
    ensures
        match res {
            Ok((v, rest)) => parsed_as(value_p(input@, 0), input@, v@, rest@),
            Err(_) => value_p(input@, 0) is None,
        },
{
    let s = chars_of(input);
    match value_at(&s, 0) {
        Some((v, k)) => Ok((v, rest_of(input, &s, k))),
        None => Err(ParseError),
    }
}

/// Parses an expansion: `a.b@i.field` or a plain field name.
pub struct ExpandParser {
    /// When set, a plain field name ends at a space.
    pub strict: bool,
}

impl ExpandParser {
    pub fn parse<'i>(&self, input: &'i str) -> (res: ParseResult<'i, Expand>)
        requires
            wf_input(input@),
        ensures
            match res {
                Ok((x, rest)) => parsed_as(expand_p(input@, 0, self.strict), input@, x@, rest@),
                Err(_) => expand_p(input@, 0, self.strict) is None,
            },
    {
        let s = chars_of(input);
        match expand_at(&s, 0, self.strict) {
            Some((x, k)) => Ok((x, rest_of(input, &s, k))),
            None => Err(ParseError),
        }
    }
}

/// Parses an expansion in which a plain field name may hold spaces.
pub fn expand(input: &str) -> (res: ParseResult<Expand>)
    requires
        wf_input(input@),
    ensures
        match res {
            Ok((x, rest)) => parsed_as(expand_p(input@, 0, false), input@, x@, rest@),
            Err(_) => expand_p(input@, 0, false) is None,
        },
{
    ExpandParser { strict: false }.parse(input)
}

/// Parses an expansion in which a plain field name ends at a space.
pub fn expand_strict(input: &str) -> (res: ParseResult<Expand>)
    requires
        wf_input(input@),
    ensures
        match res {
            Ok((x, rest)) => parsed_as(expand_p(input@, 0, true), input@, x@, rest@),
            Err(_) => expand_p(input@, 0, true) is None,
        },
{
    ExpandParser { strict: true }.parse(input)
}

/// Parses `table` or `table@index`.
pub fn lookup(input: &str) -> (res: ParseResult<Lookup>)
    requires
        wf_input(input@),
    ensures
        match res {
            Ok((l, rest)) => parsed_as(lookup_p(input@, 0), input@, l@, rest@),
            Err(_) => lookup_p(input@, 0) is None,
        },
{
    let s = chars_of(input);
    match lookup_at(&s, 0) {
        Some((l, k)) => Ok((l, rest_of(input, &s, k))),
        None => Err(ParseError),
    }
}

/// Parses `@index`.
pub fn explicit_index(input: &str) -> (res: ParseResult<String>)
    requires
        wf_input(input@),
    ensures
        match res {
            Ok((x, rest)) => parsed_as(explicit_index_p(input@, 0), input@, x@, rest@),
            Err(_) => explicit_index_p(input@, 0) is None,
        },
{
    let s = chars_of(input);
    match explicit_index_at(&s, 0) {
        Some((x, k)) => Ok((string_from_chars(&x), rest_of(input, &s, k))),
        None => Err(ParseError),
    }
}

/// Parses a name: in backticks, or a run of characters up to one of `terminating_chars`.
pub fn segment<'i>(escape: Escapes, terminating_chars: &str, input: &'i str) -> (res: ParseResult<
    'i,
    String,
>)
    requires
        wf_input(input@),
    ensures
        match res {
            Ok((x, rest)) => parsed_as(
                segment_p(input@, 0, escape, terminating_chars@),
                input@,
                x@,
                rest@,
            ),
            Err(_) => segment_p(input@, 0, escape, terminating_chars@) is None,
        },
{
    let s = chars_of(input);
    let t = chars_of(terminating_chars);
    match segment_at(&s, 0, escape, &t) {
        Some((x, k)) => Ok((string_from_chars(&x), rest_of(input, &s, k))),
        None => Err(ParseError),
    }
}

/// Parses `input` as exactly one `{{ expansion }}`, with nothing after it.
pub fn parse_expr(input: &str) -> (res: Result<Expr, ParseError>)
    requires
        wf_input(input@),
    ensures
        match res {
            Ok(x) => expr_p(input@, 0) == Some((x@, input@.len() as int)),
            Err(_) => !(expr_p(input@, 0) matches Some((_, k)) && k == input@.len()),
        },
{
    let s = chars_of(input);
    match expr_at(&s, 0) {
        Some((x, k)) => if k == s.len() {
            Ok(x)
        } else {
            Err(ParseError)
        },
        None => Err(ParseError),
    }
}

} // verus!
