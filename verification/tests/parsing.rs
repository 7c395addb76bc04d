use std::fmt::Debug;
use std::str::FromStr;

use popvars::expr::parsing::{
    block, close_block_expr, comparison, explicit_index, expand, expr, expr_escape, if_tag,
    lookup, node, outer_brackets, segment, template, where_clause, ParseError,
};
use popvars::expr::{
    Block, BlockExpr, Comparator, Comparison, Expand, Expr, ForTag, Lookup, Node, Value,
};

fn assert_lex_match(
    lexer: impl for<'a> Fn(&'a str) -> Result<(String, &'a str), ParseError>,
    input: &str,
    expected_match: &str,
) {
    let (matched, _) =
        lexer(input).unwrap_or_else(|_| panic!("expected: {expected_match} for input: {input}"));
    assert_eq!(matched, expected_match, "for input: {input}");
}

fn assert_lex_fails(
    lexer: impl for<'a> Fn(&'a str) -> Result<(String, &'a str), ParseError>,
    input: &str,
    reason: &str,
) {
    let result = lexer(input);
    assert!(
        result.is_err(),
        r#"expected lex to fail due to: "{reason}" for input: {input}"#
    );
}

fn assert_parse_match<O: PartialEq + Debug>(
    parser: impl for<'a> Fn(&'a str) -> Result<(O, &'a str), ParseError>,
    input: &str,
    expected_match: O,
) {
    let (matched, _) = parser(input).unwrap_or_else(|e| {
        panic!("parser failed to match: {expected_match:?} for input: {input} with error: {e:?}")
    });
    assert_eq!(matched, expected_match, "for input: {input}");
}

fn assert_parse_fails<O: Debug>(
    parser: impl for<'a> Fn(&'a str) -> Result<(O, &'a str), ParseError>,
    input: &str,
    reason: &str,
) {
    let result = parser(input);
    assert!(
        result.is_err(),
        r#"expected parse to fail due to: "{reason}" for input: {input}"#
    );
}

fn brackets(open: &'static str, close: &'static str) -> impl for<'a> Fn(&'a str) -> Result<(String, &'a str), ParseError> {
    move |input| outer_brackets(open, close, input)
}

#[test]
fn test_block_text() {
    let block = "{@ for `field` in `table_name` @}loop content{@ end for @}";
    let (nodes, remaining) = template(block).unwrap();

    assert_eq!(remaining, "");
    assert_eq!(
        nodes[0],
        Node::Block(Block {
            expr: BlockExpr::ForTag(ForTag {
                new_context_name: "field".into(),
                lookup: Lookup::direct("table_name"),
                where_clause: None,
                other_clause: false,
            }),
            nodes: vec![Node::Text("loop content".into())],
        })
    );
    assert_eq!(nodes.len(), 1);
}

#[test]
fn test_block_without_backticks() {
    let block = "{@ for field in table_name @}loop content{@ end for @}";
    let (nodes, remaining) = template(block).unwrap();

    assert_eq!(remaining, "");
    assert_eq!(
        nodes[0],
        Node::Block(Block {
            expr: BlockExpr::ForTag(ForTag {
                new_context_name: "field".into(),
                lookup: Lookup::direct("table_name"),
                where_clause: None,
                other_clause: false,
            }),
            nodes: vec![Node::Text("loop content".into())],
        })
    );
    assert_eq!(nodes.len(), 1);
}

#[test]
fn test_block_expr() {
    let block = "{@ for `field` in `table_name` @}{{loop expr}}{@ end for @}";
    let (nodes, remaining) = template(block).unwrap();

    assert_eq!(remaining, "");
    assert_eq!(
        nodes[0],
        Node::Block(Block {
            expr: BlockExpr::ForTag(ForTag {
                new_context_name: "field".into(),
                lookup: Lookup::direct("table_name"),
                where_clause: None,
                other_clause: false,
            }),
            nodes: vec![Node::Expr(Expr::Expand(Expand {
                field: "loop expr".into(),
                path: vec![]
            }))],
        })
    );
    assert_eq!(nodes.len(), 1);
}

#[test]
fn test_block() {
    let block = "text content.{{expr}}\n{@ for `field` in `table_name` @}loop content{{loop expr}}{@ end for @}\ntext content after loop\n";
    let (nodes, remaining) = template(block).unwrap();

    assert_eq!(remaining, "");
    assert_eq!(nodes[0], Node::from_text("text content."));
    assert_eq!(nodes[1], Node::Expr(Expr::from_str("{{expr}}").unwrap()));
    assert_eq!(nodes[2], Node::from_text("\n"));
    assert_eq!(
        nodes[3],
        Node::Block(Block {
            expr: BlockExpr::ForTag(ForTag {
                new_context_name: "field".to_string(),
                lookup: Lookup::direct("table_name"),
                where_clause: None,
                other_clause: false,
            }),
            nodes: vec![
                Node::from_text("loop content"),
                Node::Expr(Expr::Expand(Expand {
                    field: "loop expr".to_string(),
                    path: vec![],
                }))
            ]
        })
    );
    assert_eq!(nodes[4], Node::from_text("\ntext content after loop\n"));
    assert_eq!(nodes.len(), 5);
}

#[test]
fn test_for_other() {
    let block = "{@ for other `field` in `table_name` @}inner{@ end for @}";
    let (nodes, remaining) = template(block).unwrap();

    assert_eq!(remaining, "");
    assert_eq!(
        nodes[0],
        Node::Block(Block {
            expr: BlockExpr::ForTag(ForTag {
                new_context_name: "field".into(),
                lookup: Lookup::direct("table_name"),
                where_clause: None,
                other_clause: true,
            }),
            nodes: vec![Node::from_text("inner")],
        })
    );
    assert_eq!(nodes.len(), 1);
}

#[test]
fn test_for_loop() {
    let block = "foo is in vars: {{foo}}\n\nouter_table is in defs: {{outer_table.code}}\n{@ for outer in outer_table @}\n    `outer.code` now refers to the same table as `outer_table.code`\n    {{outer.$id}}={{outer.code}}\n{@ end for @}\n";
    let (nodes, remaining) = template(block).unwrap();

    assert_eq!(remaining, "");
    assert_eq!(nodes[0], Node::from_text("foo is in vars: "));
    assert_eq!(nodes[1], Node::Expr(Expr::from_str("{{foo}}").unwrap()));
    assert_eq!(nodes[2], Node::from_text("\n\nouter_table is in defs: "));
    assert_eq!(
        nodes[3],
        Node::Expr(Expr::from_str("{{outer_table.code}}").unwrap())
    );
    assert_eq!(nodes[4], Node::from_text("\n"));
    assert_eq!(
        nodes[5],
        Node::Block(Block {
            expr: BlockExpr::ForTag(ForTag {
                new_context_name: "outer".to_string(),
                lookup: Lookup::direct("outer_table"),
                where_clause: None,
                other_clause: false,
            }),
            nodes: vec![
                Node::from_text("\n    `outer.code` now refers to the same table as `outer_table.code`\n    "),
                Node::Expr(Expr::from_str("{{outer.$id}}").unwrap()),
                Node::from_text("="),
                Node::Expr(Expr::from_str("{{outer.code}}").unwrap()),
                Node::from_text("\n"),
            ]
        })
    );
    assert_eq!(nodes[6], Node::from_text("\n"));
}

#[test]
fn test_outer_brackets() {
    assert_lex_match(brackets("{{", "}}"), "{{country}}", "country");

    assert_lex_fails(brackets("{{", "}}"), "{{country}", "missing closing bracket");
    assert_lex_fails(brackets("{{", "}}"), "{country}}", "missing opening bracket");

    assert_lex_match(brackets("{@", "@}"), "{@country@}", "country");

    assert_lex_fails(brackets("{@", "@}"), "{@country}", "missing closing bracket");
    assert_lex_fails(brackets("{@", "@}"), "{country@}", "missing opening bracket");
}

#[test]
fn test_brackets_retain_escape_chars() {
    assert_lex_match(
        brackets("{{", "}}"),
        r"{{country@\{foo\}}}",
        r"country@\{foo\}",
    );
    assert_lex_match(brackets("{{", "}}"), "{{${{}}}}.)", "${{");
    assert_lex_match(brackets("{{", "}}"), "{{country}}", "country");
    assert_lex_match(brackets("{{", "}}"), r"{{me\@myself}}", r"me\@myself");

    assert_lex_fails(
        brackets("{{", "}}"),
        r"{{cou\ntry}}",
        "invalid escape sequence (\\ needs escaping)",
    );
    assert_lex_fails(brackets("{{", "}}"), r"{{country\}}", "missing closing bracket");
    assert_lex_fails(brackets("{{", "}}"), r"$\(country)", "missing opening bracket");
}

#[test]
fn test_node_with_remainder() {
    assert_parse_match(
        node,
        "{{loop expr}}{@ end for @}",
        Node::Expr(Expr::Expand(Expand {
            field: "loop expr".into(),
            path: vec![],
        })),
    );
}

#[test]
fn test_close_block_expr() {
    assert_lex_match(
        |input| close_block_expr("for", input),
        expr("{{loop expr}}{@ end for @}").unwrap().1,
        "{@ end for @}",
    );
}

#[test]
fn test_explicit_index() {
    assert_parse_match(explicit_index, "@foo", "foo".to_string());
    assert_parse_match(explicit_index, "@foo@bar", "foo".to_string());

    assert_parse_fails(explicit_index, "No @", "missing leading @");
}

#[test]
fn test_explicit_index_removes_escape_chars() {
    assert_parse_match(explicit_index, r"@\@foo", "@foo".to_string());
    assert_parse_match(explicit_index, r"@\@foo\.bar", "@foo.bar".to_string());
    assert_parse_match(explicit_index, r"@foo\{bar\}", "foo{bar}".to_string());
}

#[test]
fn test_lookup() {
    assert_parse_match(lookup, "table@index.field", Lookup::indirect("table", "index"));

    assert_parse_match(lookup, "table.field", Lookup::direct("table"));
    assert_parse_match(lookup, "table", Lookup::direct("table"));
    assert_parse_match(lookup, "table@foo", Lookup::indirect("table", "foo"));
    assert_parse_match(lookup, "table@foo@bar.", Lookup::indirect("table", "foo"));
}

#[test]
fn test_expand_direct() {
    assert_parse_match(expand, "field", Expand::new("field"));
    assert_parse_match(expand, r"\{field\}", Expand::new("{field}"));

    // `backticks` required for where clauses now, due to them supporting expand expr as the LHS
    assert_parse_match(expand, r"`field` <", Expand::new("field"));
    assert_parse_match(expand, r"field <", Expand::new("field <")); // this is a valid field/table name even though it looks like a where clause

    assert_parse_fails(expand, "{{field}}", "{} are special chars, need escaping");
}

#[test]
fn test_expand_lookups() {
    assert_parse_match(
        expand,
        "table.field",
        Expand::with_lookup("field", Lookup::direct("table")),
    );

    assert_parse_match(
        expand,
        "table@index.field",
        Expand::with_lookup("field", Lookup::indirect("table", "index")),
    );

    assert_parse_match(
        expand,
        "`table name`.field",
        Expand::with_lookup("field", Lookup::direct("table name")),
    );

    assert_parse_match(
        expand,
        "`table name`.`field name`",
        Expand::with_lookup("field name", Lookup::direct("table name")),
    );

    assert_parse_match(
        expand,
        "table.`field name`",
        Expand::with_lookup("field name", Lookup::direct("table")),
    );

    assert_parse_match(
        expand,
        "table@index.b.field",
        Expand::with_nested_lookups(
            "field",
            vec![Lookup::indirect("table", "index"), Lookup::direct("b")],
        ),
    );

    assert_parse_match(
        expand,
        "a.b.c.d",
        Expand::with_nested_lookups(
            "d",
            vec![
                Lookup::direct("a"),
                Lookup::direct("b"),
                Lookup::direct("c"),
            ],
        ),
    );
}

#[test]
fn test_expr() {
    assert_parse_match(expr, "{{country}}", Expr::Expand(Expand::new("country")));
    assert_parse_match(
        expr,
        "{{country.code}}",
        Expr::Expand(Expand::with_lookup("code", Lookup::direct("country"))),
    );
    assert_parse_match(
        expr,
        "{{country@`Enemy Country`.code}}",
        Expr::Expand(Expand::with_lookup(
            "code",
            Lookup::indirect("country", "Enemy Country"),
        )),
    );
    assert_parse_match(
        expr,
        "{{country.team.code}}",
        Expr::Expand(Expand::with_nested_lookups(
            "code",
            vec![Lookup::direct("country"), Lookup::direct("team")],
        )),
    );
    assert_parse_match(
        expr,
        "{{country@`Enemy Country`.team.code}}",
        Expr::Expand(Expand::with_nested_lookups(
            "code",
            vec![
                Lookup::indirect("country", "Enemy Country"),
                Lookup::direct("team"),
            ],
        )),
    );

    assert_parse_match(
        expr,
        "{{ country@`Enemy Country`.team.code }}",
        Expr::Expand(Expand::with_nested_lookups(
            "code",
            vec![
                Lookup::indirect("country", "Enemy Country"),
                Lookup::direct("team"),
            ],
        )),
    );

    // seems like it ought to fail - and it does now!
    assert_parse_fails(
        expr,
        "{{awueif q34t@23r .r}}",
        "Whitespace is only significant if wrapped in `backticks`",
    );

    assert_parse_match(
        |input| segment(expr_escape(), "@ .", input),
        r"\.field",
        ".field".to_string(),
    );

    assert_parse_fails(
        expr,
        "{{table@.field}}",
        "@ is followed by . which is invalid if not escaped",
    );

    assert_parse_match(
        expr,
        r"{{table@dr\.index.code}}",
        Expr::Expand(Expand::with_lookup(
            "code",
            Lookup::indirect("table", "dr.index"),
        )),
    );
}

#[test]
fn test_where_clause() {
    assert_parse_match(
        where_clause,
        r#"where team <= "Allies""#,
        Comparison::new(
            Expand::new("team"),
            Comparator::LessThanOrEqual,
            Value::Text("Allies".into()),
        ),
    );
}

#[test]
fn test_if_tag() {
    assert_parse_match(
        if_tag,
        r#"if team <= "Allies""#,
        Comparison::new(
            Expand::new("team"),
            Comparator::LessThanOrEqual,
            Value::Text("Allies".into()),
        ),
    );
}

#[test]
fn test_comparison_lookup() {
    assert_parse_match(
        comparison,
        r#"`country`.`team`<="Allies""#,
        Comparison::new(
            Expand::with_lookup("team", Lookup::direct("country")),
            Comparator::LessThanOrEqual,
            Value::Text("Allies".into()),
        ),
    );
}

#[test]
fn test_comparison_lookup_no_backticks() {
    assert_parse_match(
        comparison,
        r#"country.team <= "Allies""#,
        Comparison::new(
            Expand::with_lookup("team", Lookup::direct("country")),
            Comparator::LessThanOrEqual,
            Value::Text("Allies".into()),
        ),
    );
}

#[test]
fn block_parser_reads_whole_block() {
    let (b, rest) = block("{@ if x = 1 @}yes{@ end if @}tail").unwrap();
    assert_eq!(rest, "tail");
    assert_eq!(b.nodes, vec![Node::from_text("yes")]);
}
