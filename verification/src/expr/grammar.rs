//! The template grammar, stated over sequences of characters.
//!
//! Every parser takes the whole input `s` and a start position `i`; on success it
//! returns what it read and the position just after it.  Alternatives are ordered:
//! the first one that succeeds wins, and repetitions are greedy.
use vstd::prelude::*;

use crate::expr::{
    spec_close_name, Comparator, SpecBlockExpr, SpecComparison, SpecExpand, SpecForTag, SpecLookup,
    SpecNode, SpecValue,
};

verus! {

/// Whitespace, as `char::is_whitespace` defines it (the Unicode `White_Space` property).
pub open spec fn is_ws(c: char) -> bool {
    let u = c as u32;
    ||| 0x9 <= u <= 0xd
    ||| u == 0x20
    ||| u == 0x85
    ||| u == 0xa0
    ||| u == 0x1680
    ||| 0x2000 <= u <= 0x200a
    ||| u == 0x2028
    ||| u == 0x2029
    ||| u == 0x202f
    ||| u == 0x205f
    ||| u == 0x3000
}

/// The end of the run of whitespace that starts at `i` (possibly empty).
pub open spec fn skip_ws(s: Seq<char>, i: int) -> int
    decreases s.len() - i,
{
    if 0 <= i < s.len() && is_ws(s[i]) {
        skip_ws(s, i + 1)
    } else {
        i
    }
}

/// `lit` occurs in `s` at position `i`.
pub open spec fn has_lit(s: Seq<char>, i: int, lit: Seq<char>) -> bool {
    0 <= i && i + lit.len() <= s.len() && s.subrange(i, i + lit.len()) == lit
}

/// Which characters may follow a backslash.
#[derive(Debug, Clone, Copy, PartialEq, Eq)]
pub enum Escapes {
    /// In plain text: `\\ \@ \{ \}`.
    Content,
    /// In expressions: also `\.`.
    Expr,
    /// In a quoted string: also the quote itself.
    Str(char),
}

pub open spec fn escapable(e: Escapes, c: char) -> bool {
    ||| c == '\\'
    ||| c == '@'
    ||| c == '{'
    ||| c == '}'
    ||| match e {
        Escapes::Content => false,
        Escapes::Expr => c == '.',
        Escapes::Str(q) => c == '.' || c == q,
    }
}

/// One character of input: a backslash and an escapable character stand for that
/// character; a backslash before anything else is an error; any other character
/// stands for itself.
pub open spec fn escape_item(s: Seq<char>, i: int, e: Escapes) -> Option<(char, int)> {
    if 0 <= i < s.len() {
        if s[i] == '\\' {
            if i + 1 < s.len() && escapable(e, s[i + 1]) {
                Some((s[i + 1], i + 2))
            } else {
                None
            }
        } else {
            Some((s[i], i + 1))
        }
    } else {
        None
    }
}

/// Where a run of characters stops.
pub enum SpecStop {
    /// Before `{@` or `{{`.
    Text,
    /// Before the given literal.
    Lit(Seq<char>),
    /// Before any of the given characters.
    AnyOf(Seq<char>),
}

pub open spec fn lit_open_block() -> Seq<char> {
    seq!['{', '@']
}

pub open spec fn lit_open_expr() -> Seq<char> {
    seq!['{', '{']
}

pub open spec fn lit_close_expr() -> Seq<char> {
    seq!['}', '}']
}

pub open spec fn lit_close_block() -> Seq<char> {
    seq!['@', '}']
}

pub open spec fn stops_at(s: Seq<char>, i: int, st: SpecStop) -> bool {
    match st {
        SpecStop::Text => has_lit(s, i, lit_open_block()) || has_lit(s, i, lit_open_expr()),
        SpecStop::Lit(l) => has_lit(s, i, l),
        SpecStop::AnyOf(cs) => 0 <= i < s.len() && cs.contains(s[i]),
    }
}

/// Reads characters (with escapes) from `i` until the stop, an invalid escape
/// or the end of the input; returns the characters read and the end position.
pub open spec fn scan(s: Seq<char>, i: int, e: Escapes, st: SpecStop) -> (Seq<char>, int)
    decreases s.len() - i,
{
    if i < 0 || i >= s.len() || stops_at(s, i, st) {
        (Seq::empty(), i)
    } else {
        match escape_item(s, i, e) {
            Some((c, j)) => {
                let (r, k) = scan(s, j, e, st);
                (seq![c] + r, k)
            },
            None => (Seq::empty(), i),
        }
    }
}

/// As [`scan`], but at least one character must be read.
pub open spec fn scan1(s: Seq<char>, i: int, e: Escapes, st: SpecStop) -> Option<(Seq<char>, int)> {
    let (r, k) = scan(s, i, e, st);
    if r.len() > 0 {
        Some((r, k))
    } else {
        None
    }
}

/// `q...q`: a non-empty quoted string; inside it the quote is escaped with a backslash.
pub open spec fn string_p(s: Seq<char>, i: int, q: char) -> Option<(Seq<char>, int)> {
    if 0 <= i < s.len() && s[i] == q {
        match scan1(s, i + 1, Escapes::Str(q), SpecStop::AnyOf(seq![q])) {
            Some((r, k)) => if 0 <= k < s.len() && s[k] == q {
                Some((r, k + 1))
            } else {
                None
            },
            None => None,
        }
    } else {
        None
    }
}

/// Characters that end a name in most places: `{ @ space . }`.
pub open spec fn terms_full() -> Seq<char> {
    seq!['{', '@', ' ', '.', '}']
}

/// Characters that end a field name in a comparison: those of [`terms_full`] and the
/// characters that begin a comparator, so that `code<=200` reads as `code`, `<=`, `200`.
pub open spec fn terms_strict() -> Seq<char> {
    seq!['{', '@', ' ', '.', '}', '!', '=', '<', '>']
}

/// Characters that end a plain field name in `{{ }}`, where spaces are allowed.
pub open spec fn terms_loose() -> Seq<char> {
    seq!['{', '@', '.', '}']
}

/// Characters that end an explicit index.
pub open spec fn terms_index() -> Seq<char> {
    seq!['@', ' ', '.']
}

/// The character that ends the name bound by a `for` tag.
pub open spec fn terms_space() -> Seq<char> {
    seq![' ']
}

/// A name: either in backticks, or a non-empty run of characters up to a terminator.
pub open spec fn segment_p(s: Seq<char>, i: int, e: Escapes, terms: Seq<char>) -> Option<(Seq<char>, int)> {
    match string_p(s, i, '`') {
        Some(x) => Some(x),
        None => scan1(s, i, e, SpecStop::AnyOf(terms)),
    }
}

/// `@index`
pub open spec fn explicit_index_p(s: Seq<char>, i: int) -> Option<(Seq<char>, int)> {
    if 0 <= i < s.len() && s[i] == '@' {
        segment_p(s, i + 1, Escapes::Expr, terms_index())
    } else {
        None
    }
}

/// `table` or `table@index`
pub open spec fn lookup_p(s: Seq<char>, i: int) -> Option<(SpecLookup, int)> {
    match segment_p(s, i, Escapes::Expr, terms_full()) {
        Some((t, j)) => match explicit_index_p(s, j) {
            Some((x, k)) => Some((SpecLookup { index: Some(x), table_name: t }, k)),
            None => Some((SpecLookup { index: None, table_name: t }, j)),
        },
        None => None,
    }
}

/// A lookup followed by a dot.
pub open spec fn lookup_dot_p(s: Seq<char>, i: int) -> Option<(SpecLookup, int)> {
    match lookup_p(s, i) {
        Some((l, j)) => if 0 <= j < s.len() && s[j] == '.' {
            Some((l, j + 1))
        } else {
            None
        },
        None => None,
    }
}

/// The most lookups that one expansion may hold.
pub open spec fn max_lookups() -> int {
    100
}

/// Greedily reads lookups followed by dots; `n` of them have been read before.
pub open spec fn lookups_p(s: Seq<char>, i: int, n: int) -> (Seq<SpecLookup>, int)
    decreases max_lookups() - n,
{
    if n >= max_lookups() {
        (Seq::empty(), i)
    } else {
        match lookup_dot_p(s, i) {
            Some((l, j)) => {
                let (r, k) = lookups_p(s, j, n + 1);
                (seq![l] + r, k)
            },
            None => (Seq::empty(), i),
        }
    }
}

/// `a.b@i.field` or a plain `field`, then any whitespace.  When `strict` (in a
/// comparison), the field ends at a space or at a comparator; otherwise spaces
/// belong to a plain field.
pub open spec fn expand_p(s: Seq<char>, i: int, strict: bool) -> Option<(SpecExpand, int)> {
    let (path, j) = lookups_p(s, i, 0);
    let with_path = if path.len() > 0 {
        match segment_p(s, j, Escapes::Expr, if strict { terms_strict() } else { terms_full() }) {
            Some((f, k)) => Some((SpecExpand { field: f, path }, skip_ws(s, k))),
            None => None,
        }
    } else {
        None
    };
    match with_path {
        Some(x) => Some(x),
        None => match segment_p(s, i, Escapes::Expr, if strict { terms_strict() } else { terms_loose() }) {
            Some((f, k)) => Some((SpecExpand { field: f, path: Seq::empty() }, skip_ws(s, k))),
            None => None,
        },
    }
}

/// `!=`, `>=`, `<=`, `>`, `<` or `=`, tried in that order.
pub open spec fn comparator_p(s: Seq<char>, i: int) -> Option<(Comparator, int)> {
    if has_lit(s, i, seq!['!', '=']) {
        Some((Comparator::NotEqual, i + 2))
    } else if has_lit(s, i, seq!['>', '=']) {
        Some((Comparator::GreaterThanOrEqual, i + 2))
    } else if has_lit(s, i, seq!['<', '=']) {
        Some((Comparator::LessThanOrEqual, i + 2))
    } else if has_lit(s, i, seq!['>']) {
        Some((Comparator::GreaterThan, i + 1))
    } else if has_lit(s, i, seq!['<']) {
        Some((Comparator::LessThan, i + 1))
    } else if has_lit(s, i, seq!['=']) {
        Some((Comparator::Equal, i + 1))
    } else {
        None
    }
}

proof fn lemma_has_lit_one(s: Seq<char>, i: int, a: char)
    ensures
        has_lit(s, i, seq![a]) == (0 <= i < s.len() && s[i] == a),
{
    if 0 <= i < s.len() {
        if s[i] == a {
            assert(s.subrange(i, i + 1) =~= seq![a]);
        } else {
            if has_lit(s, i, seq![a]) {
                assert(s.subrange(i, i + 1)[0] == s[i]);
            }
        }
    }
}

proof fn lemma_has_lit_two(s: Seq<char>, i: int, a: char, b: char)
    ensures
        has_lit(s, i, seq![a, b]) == (0 <= i && i + 1 < s.len() && s[i] == a && s[i + 1] == b),
{
    if 0 <= i && i + 1 < s.len() {
        if s[i] == a && s[i + 1] == b {
            assert(s.subrange(i, i + 2) =~= seq![a, b]);
        } else if has_lit(s, i, seq![a, b]) {
            assert(s.subrange(i, i + 2)[0] == s[i]);
            assert(s.subrange(i, i + 2)[1] == s[i + 1]);
        }
    }
}

/// Each comparator is read from its own characters: `!=`, `>=` and `<=` from the two
/// characters; `>` and `<` from the one character where no `=` follows it; `=` from
/// itself.  Nothing else starts a comparator.
pub proof fn lemma_comparator_tokens(s: Seq<char>, i: int)
    requires
        0 <= i < s.len(),
    ensures
        ({
            let eq_next = i + 1 < s.len() && s[i + 1] == '=';
            &&& s[i] == '!' && eq_next ==> comparator_p(s, i) == Some((Comparator::NotEqual, i + 2))
            &&& s[i] == '!' && !eq_next ==> comparator_p(s, i) is None
            &&& s[i] == '>' && eq_next ==> comparator_p(s, i) == Some(
                (Comparator::GreaterThanOrEqual, i + 2),
            )
            &&& s[i] == '>' && !eq_next ==> comparator_p(s, i) == Some((Comparator::GreaterThan, i + 1))
            &&& s[i] == '<' && eq_next ==> comparator_p(s, i) == Some(
                (Comparator::LessThanOrEqual, i + 2),
            )
            &&& s[i] == '<' && !eq_next ==> comparator_p(s, i) == Some((Comparator::LessThan, i + 1))
            &&& s[i] == '=' ==> comparator_p(s, i) == Some((Comparator::Equal, i + 1))
            &&& s[i] != '!' && s[i] != '>' && s[i] != '<' && s[i] != '=' ==> comparator_p(s, i) is None
        }),
{
    lemma_has_lit_two(s, i, '!', '=');
    lemma_has_lit_two(s, i, '>', '=');
    lemma_has_lit_two(s, i, '<', '=');
    lemma_has_lit_one(s, i, '>');
    lemma_has_lit_one(s, i, '<');
    lemma_has_lit_one(s, i, '=');
}

pub open spec fn is_digit(c: char) -> bool {
    '0' <= c <= '9'
}

/// The end of the run of ASCII digits that starts at `i`.
pub open spec fn digit_run(s: Seq<char>, i: int) -> int
    decreases s.len() - i,
{
    if 0 <= i < s.len() && is_digit(s[i]) {
        digit_run(s, i + 1)
    } else {
        i
    }
}

/// The number that a string of decimal digits denotes.
pub open spec fn digits_value(d: Seq<char>) -> nat
    decreases d.len(),
{
    if d.len() == 0 {
        0
    } else {
        digits_value(d.drop_last()) * 10 + ((d.last() as nat) - ('0' as nat)) as nat
    }
}

/// A non-empty run of digits whose value fits in a `u64`.
pub open spec fn uint_p(s: Seq<char>, i: int) -> Option<(u64, int)> {
    let k = digit_run(s, i);
    if i < k && digits_value(s.subrange(i, k)) <= u64::MAX {
        Some((digits_value(s.subrange(i, k)) as u64, k))
    } else {
        None
    }
}

/// An optional sign and a non-empty run of digits whose value fits in an `i64`.
pub open spec fn int_p(s: Seq<char>, i: int) -> Option<(i64, int)> {
    let neg = 0 <= i < s.len() && s[i] == '-';
    let signed = 0 <= i < s.len() && (s[i] == '-' || s[i] == '+');
    let j = if signed { i + 1 } else { i };
    let k = digit_run(s, j);
    let v = digits_value(s.subrange(j, k));
    if j < k && (if neg { v <= 0x8000_0000_0000_0000 } else { v <= i64::MAX }) {
        Some((if neg { (0 - v) as i64 } else { v as i64 }, k))
    } else {
        None
    }
}

/// A double-quoted string, an unsigned integer or a signed integer, tried in that order.
pub open spec fn value_p(s: Seq<char>, i: int) -> Option<(SpecValue, int)> {
    match string_p(s, i, '"') {
        Some((t, j)) => Some((SpecValue::Text(t), j)),
        None => match uint_p(s, i) {
            Some((u, j)) => Some((SpecValue::Uint(u), j)),
            None => match int_p(s, i) {
                Some((v, j)) => Some((SpecValue::Int(v), j)),
                None => None,
            },
        },
    }
}

/// `expand comparator value`, with optional whitespace around the comparator.
pub open spec fn comparison_p(s: Seq<char>, i: int) -> Option<(SpecComparison, int)> {
    match expand_p(s, i, true) {
        Some((e, j)) => match comparator_p(s, skip_ws(s, j)) {
            Some((c, k)) => match value_p(s, skip_ws(s, k)) {
                Some((v, m)) => Some((SpecComparison { expand: e, comparator: c, value: v }, m)),
                None => None,
            },
            None => None,
        },
        None => None,
    }
}

/// `lit` with optional whitespace before and after it.
pub open spec fn pad_lit(s: Seq<char>, i: int, lit: Seq<char>) -> Option<int> {
    let j = skip_ws(s, i);
    if has_lit(s, j, lit) {
        Some(skip_ws(s, j + lit.len()))
    } else {
        None
    }
}

pub open spec fn lit_where() -> Seq<char> {
    seq!['w', 'h', 'e', 'r', 'e']
}

pub open spec fn lit_if() -> Seq<char> {
    seq!['i', 'f']
}

pub open spec fn lit_for() -> Seq<char> {
    seq!['f', 'o', 'r']
}

pub open spec fn lit_in() -> Seq<char> {
    seq!['i', 'n']
}

pub open spec fn lit_other() -> Seq<char> {
    seq!['o', 't', 'h', 'e', 'r', ' ']
}

pub open spec fn lit_end() -> Seq<char> {
    seq!['e', 'n', 'd', ' ']
}

/// `where comparison`
pub open spec fn where_clause_p(s: Seq<char>, i: int) -> Option<(SpecComparison, int)> {
    match pad_lit(s, i, lit_where()) {
        Some(j) => comparison_p(s, j),
        None => None,
    }
}

/// `if comparison`
pub open spec fn if_tag_p(s: Seq<char>, i: int) -> Option<(SpecComparison, int)> {
    match pad_lit(s, i, lit_if()) {
        Some(j) => comparison_p(s, j),
        None => None,
    }
}

/// The optional `other ` of a `for` tag.
pub open spec fn other_clause_p(s: Seq<char>, i: int) -> (bool, int) {
    if has_lit(s, i, lit_other()) {
        (true, i + 6)
    } else {
        (false, i)
    }
}

/// `for [other ]name in lookup[ where comparison]`
pub open spec fn for_tag_p(s: Seq<char>, i: int) -> Option<(SpecForTag, int)> {
    match pad_lit(s, i, lit_for()) {
        None => None,
        Some(j) => {
            let (other, j2) = other_clause_p(s, j);
            match segment_p(s, j2, Escapes::Expr, terms_space()) {
                None => None,
                Some((name, j3)) => if has_lit(s, j3, seq![' ']) {
                    match pad_lit(s, j3 + 1, lit_in()) {
                        None => None,
                        Some(j5) => match lookup_p(s, j5) {
                            None => None,
                            Some((l, j6)) => {
                                let (w, j8) = match where_clause_p(s, skip_ws(s, j6)) {
                                    Some((w, j7)) => (Some(w), skip_ws(s, j7)),
                                    None => (None, j6),
                                };
                                Some((SpecForTag {
                                    new_context_name: name,
                                    lookup: l,
                                    other_clause: other,
                                    where_clause: w,
                                }, j8))
                            },
                        },
                    }
                } else {
                    None
                },
            }
        },
    }
}

/// Optional whitespace, then `@}`.
pub open spec fn finish_p(s: Seq<char>, j: int) -> Option<int> {
    let k = skip_ws(s, j);
    if has_lit(s, k, lit_close_block()) {
        Some(k + 2)
    } else {
        None
    }
}

/// `{@ for ... @}` or `{@ if ... @}`: the word before the first space picks the tag.
pub open spec fn block_expr_p(s: Seq<char>, i: int) -> Option<(SpecBlockExpr, int)> {
    if has_lit(s, i, lit_open_block()) {
        let c = skip_ws(s, i + 2);
        if has_lit(s, c, lit_for() + seq![' ']) {
            match for_tag_p(s, c) {
                Some((f, j)) => match finish_p(s, j) {
                    Some(k) => Some((SpecBlockExpr::ForTag(f), k)),
                    None => None,
                },
                None => None,
            }
        } else if has_lit(s, c, lit_if() + seq![' ']) {
            match if_tag_p(s, c) {
                Some((f, j)) => match finish_p(s, j) {
                    Some(k) => Some((SpecBlockExpr::If(f), k)),
                    None => None,
                },
                None => None,
            }
        } else {
            None
        }
    } else {
        None
    }
}

/// `{@ end name @}`, with optional whitespace after `{@` and before `@}`.
pub open spec fn close_block_p(s: Seq<char>, i: int, name: Seq<char>) -> Option<int> {
    if has_lit(s, i, lit_open_block()) {
        let j = skip_ws(s, i + 2);
        if has_lit(s, j, lit_end()) && has_lit(s, j + 4, name) {
            let k = skip_ws(s, j + 4 + name.len());
            if has_lit(s, k, lit_close_block()) {
                Some(k + 2)
            } else {
                None
            }
        } else {
            None
        }
    } else {
        None
    }
}

proof fn lemma_skip_ws_run(s: Seq<char>, a: int, w: Seq<char>)
    requires
        0 <= a,
        a + w.len() <= s.len(),
        s.subrange(a, a + w.len()) == w,
        forall|k: int| 0 <= k < w.len() ==> is_ws(#[trigger] w[k]),
        a + w.len() == s.len() || !is_ws(s[a + w.len()]),
    ensures
        skip_ws(s, a) == a + w.len(),
    decreases w.len(),
{
    if w.len() > 0 {
        assert(s.subrange(a, a + w.len())[0] == s[a]);
        assert(is_ws(w[0]));
        assert(s.subrange(a + 1, a + w.len()) =~= w.drop_first());
        lemma_skip_ws_run(s, a + 1, w.drop_first());
    }
}

/// A closing tag is `{@`, any whitespace, `end `, the block's name, any whitespace and
/// `@}`: wherever such a text stands, it closes the block, and reading goes on right
/// after it.
pub proof fn lemma_close_tag(s: Seq<char>, i: int, name: Seq<char>, w1: Seq<char>, w2: Seq<char>)
    requires
        0 <= i,
        forall|k: int| 0 <= k < w1.len() ==> is_ws(#[trigger] w1[k]),
        forall|k: int| 0 <= k < w2.len() ==> is_ws(#[trigger] w2[k]),
        i + (seq!['{', '@'] + w1 + seq!['e', 'n', 'd', ' '] + name + w2 + seq!['@', '}']).len() <= s.len(),
        s.subrange(
            i,
            i + (seq!['{', '@'] + w1 + seq!['e', 'n', 'd', ' '] + name + w2 + seq!['@', '}']).len(),
        ) == seq!['{', '@'] + w1 + seq!['e', 'n', 'd', ' '] + name + w2 + seq!['@', '}'],
    ensures
        close_block_p(s, i, name) == Some(
            i + (seq!['{', '@'] + w1 + seq!['e', 'n', 'd', ' '] + name + w2 + seq!['@', '}']).len(),
        ),
{
    let t = seq!['{', '@'] + w1 + seq!['e', 'n', 'd', ' '] + name + w2 + seq!['@', '}'];
    let n = t.len() as int;
    let a = i + 2;
    let j = a + w1.len();
    let k = j + 4 + name.len();
    let m = k + w2.len();
    assert(n == m + 2 - i);
    assert forall|p: int| 0 <= p < n implies s[i + p] == t[p] by {
        assert(s.subrange(i, i + n)[p] == s[i + p]);
    }
    assert(s.subrange(i, i + 2) =~= lit_open_block()) by {
        assert(t[0] == '{');
        assert(t[1] == '@');
    }
    assert(s.subrange(a, j) =~= w1) by {
        assert forall|p: int| 0 <= p < w1.len() implies s.subrange(a, j)[p] == w1[p] by {
            assert(t[2 + p] == w1[p]);
        }
    }
    assert(!is_ws(s[j])) by {
        assert(t[j - i] == 'e');
    }
    lemma_skip_ws_run(s, a, w1);
    assert(s.subrange(j, j + 4) =~= lit_end()) by {
        assert forall|p: int| 0 <= p < 4 implies s.subrange(j, j + 4)[p] == lit_end()[p] by {
            assert(t[j - i + p] == seq!['e', 'n', 'd', ' '][p]);
        }
    }
    assert(s.subrange(j + 4, k) =~= name) by {
        assert forall|p: int| 0 <= p < name.len() implies s.subrange(j + 4, k)[p] == name[p] by {
            assert(t[j + 4 - i + p] == name[p]);
        }
    }
    assert(s.subrange(k, m) =~= w2) by {
        assert forall|p: int| 0 <= p < w2.len() implies s.subrange(k, m)[p] == w2[p] by {
            assert(t[k - i + p] == w2[p]);
        }
    }
    assert(!is_ws(s[m])) by {
        assert(t[m - i] == '@');
    }
    lemma_skip_ws_run(s, k, w2);
    assert(s.subrange(m, m + 2) =~= lit_close_block()) by {
        assert(t[m - i] == '@');
        assert(t[m - i + 1] == '}');
    }
}

/// Plain text: a non-empty run of characters up to `{@` or `{{`.
pub open spec fn text_p(s: Seq<char>, i: int) -> Option<(Seq<char>, int)> {
    scan1(s, i, Escapes::Content, SpecStop::Text)
}

/// `open inner close`, where `inner` is a non-empty run (escapes kept) up to `close`;
/// returns the bounds of `inner` and the end.
pub open spec fn outer_brackets_p(s: Seq<char>, i: int, open: Seq<char>, close: Seq<char>) -> Option<(int, int, int)> {
    if has_lit(s, i, open) {
        let a = i + open.len();
        let (r, b) = scan(s, a, Escapes::Expr, SpecStop::Lit(close));
        if r.len() > 0 && has_lit(s, b, close) {
            Some((a, b, b + close.len()))
        } else {
            None
        }
    } else {
        None
    }
}

/// The whole of `s`, with optional whitespace around it, is an expansion.
pub open spec fn padded_expand_p(inner: Seq<char>) -> Option<SpecExpand> {
    match expand_p(inner, skip_ws(inner, 0), false) {
        Some((x, q)) => if skip_ws(inner, q) == inner.len() {
            Some(x)
        } else {
            None
        },
        None => None,
    }
}

/// `{{ expansion }}`
pub open spec fn expr_p(s: Seq<char>, i: int) -> Option<(SpecExpand, int)> {
    match outer_brackets_p(s, i, lit_open_expr(), lit_close_expr()) {
        Some((a, b, e)) => match padded_expand_p(s.subrange(a, b)) {
            Some(x) => Some((x, e)),
            None => None,
        },
        None => None,
    }
}

/// A block, an expression or text, tried in that order.
pub open spec fn node_p(s: Seq<char>, i: int) -> Option<(SpecNode, int)>
    decreases s.len() - i, 2int,
{
    match block_p(s, i) {
        Some(b) => Some(b),
        None => match expr_p(s, i) {
            Some((x, j)) => Some((SpecNode::Expr(x), j)),
            None => match text_p(s, i) {
                Some((t, j)) => Some((SpecNode::Text(t), j)),
                None => None,
            },
        },
    }
}

/// An opening tag, the nodes up to the matching closing tag, and that tag.
pub open spec fn block_p(s: Seq<char>, i: int) -> Option<(SpecNode, int)>
    decreases s.len() - i, 1int,
{
    match block_expr_p(s, i) {
        Some((be, j)) => if i < j <= s.len() {
            let name = spec_close_name(be);
            let (ns, k) = block_nodes_p(s, j, name);
            match close_block_p(s, k, name) {
                Some(m) => Some((SpecNode::Block(be, ns), m)),
                None => None,
            }
        } else {
            None
        },
        None => None,
    }
}

/// Nodes, greedily, until the closing tag `{@ end name @}`.
pub open spec fn block_nodes_p(s: Seq<char>, i: int, name: Seq<char>) -> (Seq<SpecNode>, int)
    decreases s.len() - i, 3int,
{
    if close_block_p(s, i, name) is Some {
        (Seq::empty(), i)
    } else {
        match node_p(s, i) {
            Some((n, j)) => if i < j <= s.len() {
                let (r, k) = block_nodes_p(s, j, name);
                (seq![n] + r, k)
            } else {
                (Seq::empty(), i)
            },
            None => (Seq::empty(), i),
        }
    }
}

/// Nodes, greedily, from `i`.
pub open spec fn top_nodes_p(s: Seq<char>, i: int) -> (Seq<SpecNode>, int)
    decreases s.len() - i,
{
    match node_p(s, i) {
        Some((n, j)) => if i < j <= s.len() {
            let (r, k) = top_nodes_p(s, j);
            (seq![n] + r, k)
        } else {
            (Seq::empty(), i)
        },
        None => (Seq::empty(), i),
    }
}

/// In text with no `{` and no backslash, a run of plain text reaches the end.
pub proof fn lemma_scan_plain(s: Seq<char>, i: int)
    requires
        0 <= i <= s.len(),
        forall|k: int| 0 <= k < s.len() ==> s[k] != '{' && s[k] != '\\',
    ensures
        scan(s, i, Escapes::Content, SpecStop::Text) == (s.subrange(i, s.len() as int), s.len() as int),
    decreases s.len() - i,
{
    if i < s.len() {
        if has_lit(s, i, lit_open_block()) {
            assert(s.subrange(i, i + 2)[0] == s[i]);
        }
        if has_lit(s, i, lit_open_expr()) {
            assert(s.subrange(i, i + 2)[0] == s[i]);
        }
        lemma_scan_plain(s, i + 1);
        assert(seq![s[i]] + s.subrange(i + 1, s.len() as int) =~= s.subrange(i, s.len() as int));
    } else {
        assert(s.subrange(i, s.len() as int) =~= Seq::<char>::empty());
    }
}

/// A non-empty text with no `{` and no backslash parses as a single text node.
pub proof fn lemma_plain_text_parse(s: Seq<char>)
    requires
        s.len() > 0,
        forall|k: int| 0 <= k < s.len() ==> s[k] != '{' && s[k] != '\\',
    ensures
        template_p(s) == Some(seq![SpecNode::Text(s)]),
{
    lemma_scan_plain(s, 0);
    lemma_scan_plain(s, s.len() as int);
    assert(s.subrange(0, s.len() as int) =~= s);
    if has_lit(s, 0, lit_open_block()) {
        assert(s.subrange(0, 2)[0] == s[0]);
    }
    if has_lit(s, 0, lit_open_expr()) {
        assert(s.subrange(0, 2)[0] == s[0]);
    }
    assert(node_p(s, 0) == Some((SpecNode::Text(s), s.len() as int)));
    assert(node_p(s, s.len() as int) is None);
    assert(top_nodes_p(s, s.len() as int) == (Seq::<SpecNode>::empty(), s.len() as int));
    assert(seq![SpecNode::Text(s)] + Seq::<SpecNode>::empty() =~= seq![SpecNode::Text(s)]);
}

/// A field name as written in a template, with each `.` escaped by a backslash.
pub open spec fn escape_dots(f: Seq<char>) -> Seq<char>
    decreases f.len(),
{
    if f.len() == 0 {
        Seq::empty()
    } else {
        (if f[0] == '.' {
            seq!['\\', '.']
        } else {
            seq![f[0]]
        }) + escape_dots(f.drop_first())
    }
}

/// A field name that `{{ }}` can hold once its dots are escaped: not empty, not
/// starting with whitespace or a backtick, and without `{`, `@`, `}` or a backslash.
pub open spec fn plain_name(f: Seq<char>) -> bool {
    &&& f.len() > 0
    &&& !is_ws(f[0])
    &&& f[0] != '`'
    &&& forall|k: int|
        0 <= k < f.len() ==> f[k] != '{' && f[k] != '@' && f[k] != '}' && f[k] != '\\'
}

proof fn lemma_escape_dots_chars(f: Seq<char>)
    requires
        forall|k: int|
            0 <= k < f.len() ==> f[k] != '{' && f[k] != '@' && f[k] != '}' && f[k] != '\\',
    ensures
        f.len() > 0 ==> escape_dots(f).len() > 0 && escape_dots(f)[0] == (if f[0] == '.' {
            '\\'
        } else {
            f[0]
        }),
        forall|i: int|
            0 <= i < escape_dots(f).len() ==> escape_dots(f)[i] != '{' && escape_dots(f)[i] != '@'
                && escape_dots(f)[i] != '}',
    decreases f.len(),
{
    if f.len() > 0 {
        let t = f.drop_first();
        lemma_escape_dots_chars(t);
        let h = if f[0] == '.' {
            seq!['\\', '.']
        } else {
            seq![f[0]]
        };
        let e = escape_dots(f);
        assert(e == h + escape_dots(t));
        assert forall|i: int| 0 <= i < e.len() implies e[i] != '{' && e[i] != '@' && e[i] != '}' by {
            if i >= h.len() {
                assert(e[i] == escape_dots(t)[i - h.len()]);
            }
        }
    }
}

/// Reading an escaped name from a boundary of its escapes gives the name back, when
/// nothing in it but a raw `.` could stop the run and the run stops right after it.
proof fn lemma_scan_escaped(s: Seq<char>, o: int, n: int, f: Seq<char>, st: SpecStop)
    requires
        0 <= o <= n <= s.len(),
        s.subrange(o, n) == escape_dots(f),
        forall|k: int| 0 <= k < f.len() ==> f[k] != '\\',
        forall|i: int| o <= i < n && s[i] != '.' ==> !stops_at(s, i, st),
        n == s.len() || stops_at(s, n, st),
    ensures
        scan(s, o, Escapes::Expr, st) == (f, n),
    decreases f.len(),
{
    if f.len() == 0 {
        assert(s.subrange(o, n).len() == 0);
    } else {
        let t = f.drop_first();
        let h = if f[0] == '.' {
            seq!['\\', '.']
        } else {
            seq![f[0]]
        };
        assert(escape_dots(f) == h + escape_dots(t));
        assert(s.subrange(o, n)[0] == s[o]);
        assert(s[o] == h[0]);
        let m = o + h.len();
        if f[0] == '.' {
            assert(s.subrange(o, n)[1] == s[o + 1]);
        }
        assert(s.subrange(m, n) =~= escape_dots(t)) by {
            assert forall|i: int| 0 <= i < n - m implies s.subrange(m, n)[i] == escape_dots(t)[i] by {
                assert(s.subrange(o, n)[i + h.len()] == s[m + i]);
            }
        }
        lemma_scan_escaped(s, m, n, t, st);
        assert(seq![f[0]] + t =~= f);
    }
}

/// A run read from a boundary of an escaped name does not stop at a raw `.`.
proof fn lemma_scan_escaped_end(s: Seq<char>, o: int, f: Seq<char>, st: SpecStop)
    requires
        0 <= o <= s.len(),
        s.subrange(o, s.len() as int) == escape_dots(f),
        forall|k: int| 0 <= k < f.len() ==> f[k] != '\\',
    ensures
        scan(s, o, Escapes::Expr, st).1 == s.len() || (o <= scan(s, o, Escapes::Expr, st).1 < s.len()
            && s[scan(s, o, Escapes::Expr, st).1] != '.'),
    decreases f.len(),
{
    let n = s.len() as int;
    if f.len() == 0 {
        assert(s.subrange(o, n).len() == 0);
    } else {
        let t = f.drop_first();
        let h = if f[0] == '.' {
            seq!['\\', '.']
        } else {
            seq![f[0]]
        };
        assert(escape_dots(f) == h + escape_dots(t));
        assert(s.subrange(o, n)[0] == s[o]);
        assert(s[o] == h[0]);
        let m = o + h.len();
        if f[0] == '.' {
            assert(s.subrange(o, n)[1] == s[o + 1]);
        }
        assert(s.subrange(m, n) =~= escape_dots(t)) by {
            assert forall|i: int| 0 <= i < n - m implies s.subrange(m, n)[i] == escape_dots(t)[i] by {
                assert(s.subrange(o, n)[i + h.len()] == s[m + i]);
            }
        }
        lemma_scan_escaped_end(s, m, t, st);
    }
}

/// Within `{{ }}`, an escaped name reads as an expansion of that field alone.
#[verifier::spinoff_prover]
proof fn lemma_escaped_expand(f: Seq<char>)
    requires
        plain_name(f),
    ensures
        padded_expand_p(escape_dots(f)) == Some(SpecExpand { field: f, path: Seq::empty() }),
{
    let e = escape_dots(f);
    lemma_escape_dots_chars(f);
    assert(e.subrange(0, e.len() as int) =~= e);
    assert(!is_ws(e[0]));
    assert(skip_ws(e, 0) == 0);
    assert(skip_ws(e, e.len() as int) == e.len());
    assert(string_p(e, 0, '`') is None);
    assert(lookup_dot_p(e, 0) is None) by {
        lemma_scan_escaped_end(e, 0, f, SpecStop::AnyOf(terms_full()));
        let j = scan(e, 0, Escapes::Expr, SpecStop::AnyOf(terms_full())).1;
        assert(explicit_index_p(e, j) is None);
    }
    assert(lookups_p(e, 0, 0) == (Seq::<SpecLookup>::empty(), 0int));
    assert forall|i: int| 0 <= i < e.len() && e[i] != '.' implies !stops_at(
        e,
        i,
        SpecStop::AnyOf(terms_loose()),
    ) by {
        if terms_loose().contains(e[i]) {
            let k = choose|k: int| 0 <= k < terms_loose().len() && terms_loose()[k] == e[i];
            assert(k == 0 || k == 1 || k == 2 || k == 3);
        }
    }
    lemma_scan_escaped(e, 0, e.len() as int, f, SpecStop::AnyOf(terms_loose()));
    let x = SpecExpand { field: f, path: Seq::empty() };
    assert(expand_p(e, 0, false) == Some((x, e.len() as int)));
}

/// The brackets of `{{name}}` enclose the escaped name.
#[verifier::spinoff_prover]
proof fn lemma_escaped_brackets(f: Seq<char>)
    requires
        plain_name(f),
    ensures
        ({
            let e = escape_dots(f);
            let s = lit_open_expr() + e + lit_close_expr();
            let n = e.len() as int + 2;
            &&& s.len() == n + 2
            &&& s.subrange(2, n) == e
            &&& outer_brackets_p(s, 0, lit_open_expr(), lit_close_expr()) == Some((2int, n, n + 2))
        }),
{
    let e = escape_dots(f);
    let s = lit_open_expr() + e + lit_close_expr();
    let n = e.len() as int + 2;
    lemma_escape_dots_chars(f);
    assert(s.subrange(2, n) =~= e);
    assert forall|i: int| 0 <= i < e.len() implies s[i + 2] == e[i] by {}
    assert(s.subrange(0, 2) =~= lit_open_expr());
    assert(s.subrange(n, n + 2) =~= lit_close_expr());
    assert forall|i: int| 2 <= i < n && s[i] != '.' implies !stops_at(
        s,
        i,
        SpecStop::Lit(lit_close_expr()),
    ) by {
        if has_lit(s, i, lit_close_expr()) {
            assert(s.subrange(i, i + 2)[0] == s[i]);
            assert(s[i] == e[i - 2]);
        }
    }
    lemma_scan_escaped(s, 2, n, f, SpecStop::Lit(lit_close_expr()));
}

/// Past the end of the input there are no more nodes.
proof fn lemma_no_nodes_at_end(s: Seq<char>)
    ensures
        top_nodes_p(s, s.len() as int) == (Seq::<SpecNode>::empty(), s.len() as int),
{
    let i = s.len() as int;
    assert(block_p(s, i) is None);
    assert(expr_p(s, i) is None);
    assert(text_p(s, i) is None);
    assert(node_p(s, i) is None);
}

/// `{{name}}` with the name's dots escaped is an expression that reads that field.
#[verifier::spinoff_prover]
proof fn lemma_escaped_expr(f: Seq<char>)
    requires
        plain_name(f),
    ensures
        expr_p(lit_open_expr() + escape_dots(f) + lit_close_expr(), 0) == Some(
            (
                SpecExpand { field: f, path: Seq::empty() },
                escape_dots(f).len() as int + 4,
            ),
        ),
{
    lemma_escaped_brackets(f);
    lemma_escaped_expand(f);
}

/// Text that does not start with `{@` holds no block there.
proof fn lemma_no_block(s: Seq<char>, i: int)
    requires
        !has_lit(s, i, lit_open_block()),
    ensures
        block_p(s, i) is None,
{
    assert(block_expr_p(s, i) is None);
}

/// `{{` and `}}` around a field name whose dots are escaped with a backslash parse as
/// an expansion of that field alone: `{{fav\. color}}` names the field `fav. color`.
#[verifier::spinoff_prover]
pub proof fn lemma_escaped_field_parse(f: Seq<char>)
    requires
        plain_name(f),
    ensures
        template_p(lit_open_expr() + escape_dots(f) + lit_close_expr()) == Some(
            seq![SpecNode::Expr(SpecExpand { field: f, path: Seq::empty() })],
        ),
{
    let e = escape_dots(f);
    let s = lit_open_expr() + e + lit_close_expr();
    let n = e.len() as int + 4;
    let x = SpecExpand { field: f, path: Seq::empty() };
    assert(s.len() == n);
    lemma_escaped_expr(f);
    assert(!has_lit(s, 0, lit_open_block())) by {
        if has_lit(s, 0, lit_open_block()) {
            assert(s.subrange(0, 2)[1] == s[1]);
        }
    }
    lemma_no_block(s, 0);
    assert(node_p(s, 0) == Some((SpecNode::Expr(x), n)));
    lemma_no_nodes_at_end(s);
    assert(seq![SpecNode::Expr(x)] + Seq::<SpecNode>::empty() =~= seq![SpecNode::Expr(x)]);
}

/// A whole template: one or more nodes that together cover all of `s`.
pub open spec fn template_p(s: Seq<char>) -> Option<Seq<SpecNode>> {
    let (ns, k) = top_nodes_p(s, 0);
    if ns.len() > 0 && k == s.len() {
        Some(ns)
    } else {
        None
    }
}

} // verus!
