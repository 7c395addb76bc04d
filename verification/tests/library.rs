use popvars::definition::field::{Field, SpecialField};
use popvars::definition::file_prefix;
use popvars::definition::vars::{Type, Vars};
use popvars::dict::Dict;
use popvars::expr::eval::{order_i64, order_str, order_u64, parse_i64, parse_u64};
use popvars::expr::parsing::{template, value, ParseError};
use popvars::expr::{Comparator, Comparison, Expand, ForTag, Lookup, Order, Value, WhereClause};
use popvars::table::{from_csv, Record, Table};
use popvars::template::{ContextIndex, InheritedContext, Template};
use popvars::{pop, Definition, PopError, TemplateError};

fn record(pairs: &[(&str, &str)]) -> Record {
    let mut r = Record::new();
    for (k, v) in pairs {
        r.insert(k.to_string(), v.to_string());
    }
    r
}

fn definition(vars: &str, defs: &[(&str, &str)]) -> Definition {
    let defs: Vec<(String, String)> = defs
        .iter()
        .map(|(n, t)| (n.to_string(), t.to_string()))
        .collect();
    Definition::from_csv_strings(vars.to_string(), &defs).unwrap()
}

fn pop_one(input: &str, vars: &str, defs: &[(&str, &str)]) -> Result<Vec<String>, TemplateError> {
    pop(input, definition(vars, defs))
}

#[test]
fn readme_example_populates_each_row() {
    let out = pop_one(
        "{{country}} with code {{country.code}} contains {{city}}.",
        "country,city\nGermany,Konigsberg\nFrance,Marseille\n",
        &[("country", "$id,code\nGermany,45\nFrance,40\nItaly,59\n")],
    )
    .unwrap();
    assert_eq!(
        out,
        vec![
            "Germany with code 45 contains Konigsberg.".to_string(),
            "France with code 40 contains Marseille.".to_string()
        ]
    );
}

#[test]
fn escaped_dot_reads_a_field_with_a_dot() {
    let out = pop_one(r"{{fav\. color}}", "fav. color\nred\n", &[]).unwrap();
    assert_eq!(out, vec!["red".to_string()]);
}

#[test]
fn plain_text_populates_to_itself() {
    let out = pop_one("just text, no braces", "a\n1\n2\n", &[]).unwrap();
    assert_eq!(out, vec!["just text, no braces".to_string(), "just text, no braces".to_string()]);
}

#[test]
fn one_output_per_row() {
    let out = pop_one("{{a}}", "a\nx\ny\nz\n", &[]).unwrap();
    assert_eq!(out.len(), 3);
    let none = pop_one("{{a}}", "a\n", &[]).unwrap();
    assert!(none.is_empty());
}

#[test]
fn template_that_does_not_parse() {
    assert_eq!(pop_one("", "a\n1\n", &[]), Err(TemplateError::Parse(ParseError)));
    assert_eq!(pop_one(r"bad \n escape", "a\n1\n", &[]), Err(TemplateError::Parse(ParseError)));
    assert_eq!(pop_one("{@ for x in t @}never closed", "a\n1\n", &[]), Err(TemplateError::Parse(ParseError)));
}

#[test]
fn missing_field_reports_row() {
    let err = pop_one("{{b}}", "a\n1\n", &[]).unwrap_err();
    assert_eq!(
        err,
        TemplateError::Row { row: 1, error: PopError::MissingField { field: "b".to_string() } }
    );
    if let TemplateError::Row { error, .. } = err {
        assert_eq!(error.message(), "Failed expansion: context is missing field `b`");
    }
}

#[test]
fn lookup_errors() {
    let err = pop_one("{{t.x}}", "a\n1\n", &[]).unwrap_err();
    assert_eq!(
        err,
        TemplateError::Row { row: 1, error: PopError::MissingIndexField { index: "t".to_string() } }
    );
    let err = pop_one("{{t.x}}", "t\n1\n", &[]).unwrap_err();
    assert_eq!(err, TemplateError::Row { row: 1, error: PopError::NoTable { table: "t".to_string() } });
    let err = pop_one("{{t.x}}", "t\n9\n", &[("t", "$id,x\n1,one\n")]).unwrap_err();
    assert_eq!(
        err,
        TemplateError::Row {
            row: 1,
            error: PopError::NotFound { table: "t".to_string(), key: "9".to_string() }
        }
    );
    assert_eq!(
        PopError::NotFound { table: "t".to_string(), key: "9".to_string() }.message(),
        "Failed lookup: expected to find a t with $id=9"
    );
    let err = pop_one("{{t.x}}", "t\n1\n", &[("t", "id,x\n1,one\n")]).unwrap_err();
    assert_eq!(
        err,
        TemplateError::Row { row: 1, error: PopError::TableWithoutId { table: "t".to_string() } }
    );
}

#[test]
fn explicit_index_lookup() {
    let out = pop_one(
        "{{country@`Enemy Country`.team}}",
        "country,Enemy Country\nFrance,Germany\n",
        &[("country", "$id,team\nFrance,Allies\nGermany,Axis\n")],
    )
    .unwrap();
    assert_eq!(out, vec!["Axis".to_string()]);
}

#[test]
fn nested_lookups() {
    let out = pop_one(
        "{{country.team.leader}}",
        "country\nItaly\n",
        &[
            ("country", "$id,team\nItaly,Axis\n"),
            ("team", "$id,leader\nAllies,a\nAxis,b\n"),
        ],
    )
    .unwrap();
    assert_eq!(out, vec!["b".to_string()]);
}

#[test]
fn if_block_with_integers() {
    let defs: [(&str, &str); 0] = [];
    let out = pop_one("{@ if n >= 10 @}big{@ end if @}", "n\n10\n3\n", &defs).unwrap();
    assert_eq!(out, vec!["big".to_string(), "".to_string()]);
    let out = pop_one("{@ if n < -1 @}neg{@ end if @}", "n\n3\n-5\n", &defs).unwrap();
    assert_eq!(out, vec!["".to_string(), "neg".to_string()]);
    let err = pop_one("{@ if n >= 10 @}big{@ end if @}", "n\n10\n-5\n", &defs).unwrap_err();
    assert_eq!(
        err,
        TemplateError::Row { row: 2, error: PopError::NotUnsignedInt { field: "n".to_string(), table: None } }
    );
    let err = pop_one("{@ if n = 1 @}x{@ end if @}", "n\nabc\n", &defs).unwrap_err();
    assert_eq!(
        err,
        TemplateError::Row { row: 1, error: PopError::NotUnsignedInt { field: "n".to_string(), table: None } }
    );
    let err = pop_one("{@ if n = -1 @}x{@ end if @}", "n\nabc\n", &defs).unwrap_err();
    assert_eq!(
        err,
        TemplateError::Row { row: 1, error: PopError::NotSignedInt { field: "n".to_string(), table: None } }
    );
}

#[test]
fn for_where_selects_matching_records() {
    let out = pop_one(
        "{@ for c in country where team = \"Axis\" @}[{{c.$id}}]{@ end for @}",
        "x\n1\n",
        &[("country", "$id,team\nFrance,Allies\nGermany,Axis\nItaly,Axis\n")],
    )
    .unwrap();
    assert_eq!(out, vec!["[Germany][Italy]".to_string()]);
}

#[test]
fn where_clause_without_spaces() {
    let out = pop_one(
        "{@ for o in outer_table where code<=200 @}{{o.$id}};{@ end for @}",
        "foo,outer_table\n1,a\n",
        &[("outer_table", "$id,code\na,100\nb,200\nc,300\n")],
    )
    .unwrap();
    assert_eq!(out, vec!["a;b;".to_string()]);
    let out = pop_one(
        "{@ if country.team!=\"Axis\" @}yes{@ end if @}",
        "country\nFrance\nItaly\n",
        &[("country", "$id,team\nFrance,Allies\nItaly,Axis\n")],
    )
    .unwrap();
    assert_eq!(out, vec!["yes".to_string(), "".to_string()]);
}

#[test]
fn for_other_where() {
    let out = pop_one(
        "{@ for other c in country where team != \"Allies\" @}[{{c.$id}}]{@ end for @}",
        "country\nGermany\n",
        &[("country", "$id,team\nFrance,Allies\nGermany,Axis\nItaly,Axis\n")],
    )
    .unwrap();
    assert_eq!(out, vec!["[Italy]".to_string()]);
}

#[test]
fn for_over_vars_table() {
    let out = pop_one("{@ for v in vars @}{{v.a}};{@ end for @}", "a\n1\n2\n", &[]).unwrap();
    assert_eq!(out, vec!["1;2;".to_string(), "1;2;".to_string()]);
}

#[test]
fn for_over_missing_table() {
    let err = pop_one("{@ for v in nothing @}x{@ end for @}", "a\n1\n", &[]).unwrap_err();
    assert_eq!(
        err,
        TemplateError::Row { row: 1, error: PopError::ContextUnavailable { name: "v".to_string() } }
    );
    assert_eq!(
        PopError::ContextUnavailable { name: "v".to_string() }.message(),
        "Failed to index context `v` for block"
    );
}

#[test]
fn for_other_without_ids() {
    let err = pop_one(
        "{@ for other c in country @}x{@ end for @}",
        "country\nGermany\n",
        &[("country", "name\nFrance\n")],
    )
    .unwrap_err();
    assert_eq!(
        err,
        TemplateError::Row {
            row: 1,
            error: PopError::MissingIdInOther { index: "country".to_string() }
        }
    );
}

#[test]
fn record_without_id_is_an_error() {
    let mut a = Record::new();
    a.insert("$id".to_string(), "a".to_string());
    let b = record(&[("x", "1")]);
    let table = Table::new("t".to_string(), vec![a, b]);
    assert_eq!(table.index("a").unwrap().unwrap().get("$id"), Some(&"a".to_string()));
    assert_eq!(
        table.index("zzz"),
        Err(PopError::RecordWithoutId { table: "t".to_string() })
    );
}

#[test]
fn table_index_finds_first_match() {
    let table = Table::new(
        "t".to_string(),
        vec![record(&[("$id", "a"), ("v", "1")]), record(&[("$id", "a"), ("v", "2")])],
    );
    assert_eq!(table.index("a").unwrap().unwrap().get("v"), Some(&"1".to_string()));
    let empty = Table::new("e".to_string(), vec![]);
    assert_eq!(empty.index("a"), Ok(None));
}

#[test]
fn csv_tables() {
    let t = from_csv("people".to_string(), "name,age\n\"Smith, J\",42\nBob,7\n").unwrap();
    assert_eq!(t.name, "people");
    assert_eq!(t.records.len(), 2);
    assert_eq!(t.records[0].get("name"), Some(&"Smith, J".to_string()));
    assert_eq!(t.records[1].get("age"), Some(&"7".to_string()));
    assert!(from_csv("bad".to_string(), "a,b\n1,2,3\n").is_err());
    let empty = from_csv("e".to_string(), "").unwrap();
    assert_eq!(empty.records.len(), 0);
}

#[test]
fn later_definitions_override_earlier() {
    let d = definition("a\n1\n", &[("t", "$id\nx\n"), ("t", "$id\ny\nz\n")]);
    assert_eq!(d.defs.len(), 1);
    assert_eq!(d.defs.get("t").unwrap().records.len(), 2);
    assert!(Definition::from_csv_strings("a\n1,2\n".to_string(), &[]).is_err());
}

#[test]
fn definition_get_and_index() {
    let d = definition("a\n1\n", &[("t", "$id,k\nx,1\ny,2\n")]);
    assert_eq!(d.get("vars").unwrap().records.len(), 1);
    assert_eq!(d.get("t").unwrap().name, "t");
    assert!(d.get("nope").is_none());

    let ctx: InheritedContext = Dict::new();
    let rec = record(&[("t", "x")]);
    let table_idx = ContextIndex::Table { table_name: "t".to_string() };
    let all = d.index(&table_idx, &rec, &ctx).unwrap().unwrap();
    assert_eq!(all.len(), 2);
    let other_idx = ContextIndex::FilteredTableOther { table_name: "t".to_string(), index: None };
    let others = d.index(&other_idx, &rec, &ctx).unwrap().unwrap();
    assert_eq!(others.len(), 1);
    assert_eq!(others[0].get("$id"), Some(&"y".to_string()));
    let where_idx = ContextIndex::FilteredTableWhere {
        table_name: "t".to_string(),
        where_clause: Comparison::new(Expand::new("k"), Comparator::GreaterThan, Value::Uint(1)),
    };
    let filtered = d.index(&where_idx, &rec, &ctx).unwrap().unwrap();
    assert_eq!(filtered.len(), 1);
    assert_eq!(filtered[0].get("k"), Some(&"2".to_string()));
    assert!(d.index(&ContextIndex::ValueList(vec![]), &rec, &ctx).unwrap().is_none());
    let no_field = record(&[("other", "x")]);
    assert!(d
        .index(&ContextIndex::FilteredTableOther { table_name: "t".to_string(), index: None }, &no_field, &ctx)
        .unwrap()
        .is_none());
}

#[test]
fn for_tag_context_index() {
    let f = ForTag {
        new_context_name: "c".to_string(),
        lookup: Lookup::indirect("t", "i"),
        other_clause: true,
        where_clause: None,
    };
    assert_eq!(
        f.ctx_idx(),
        ContextIndex::FilteredTableOther { table_name: "t".to_string(), index: Some("i".to_string()) }
    );
    let g = ForTag { other_clause: false, ..f };
    assert_eq!(g.ctx_idx(), ContextIndex::Table { table_name: "t".to_string() });
}

#[test]
fn comparator_compare() {
    assert!(Comparator::Equal.compare(Order::Equal));
    assert!(!Comparator::NotEqual.compare(Order::Equal));
    assert!(Comparator::GreaterThan.compare(Order::Greater));
    assert!(Comparator::LessThanOrEqual.compare(Order::Less));
    assert!(!Comparator::GreaterThanOrEqual.compare(Order::Less));
    assert_eq!(order_i64(-3, 2), Order::Less);
    assert_eq!(order_u64(5, 5), Order::Equal);
    assert_eq!(order_str("b", "abc"), Order::Greater);
    assert_eq!(order_str("ab", "abc"), Order::Less);
    assert_eq!(order_str("é", "z"), Order::Greater);
}

#[test]
fn integer_reading() {
    assert_eq!(parse_u64("+42"), Some(42));
    assert_eq!(parse_u64("18446744073709551615"), Some(u64::MAX));
    assert_eq!(parse_u64("18446744073709551616"), None);
    assert_eq!(parse_u64("-1"), None);
    assert_eq!(parse_u64(""), None);
    assert_eq!(parse_i64("-9223372036854775808"), Some(i64::MIN));
    assert_eq!(parse_i64("9223372036854775808"), None);
    assert_eq!(parse_i64(" 1"), None);
    assert_eq!(parse_i64("+7"), Some(7));
}

#[test]
fn value_literals() {
    assert_eq!(value("\"a\\\"b\" rest").unwrap(), (Value::Text("a\"b".to_string()), " rest"));
    assert_eq!(value("12").unwrap().0, Value::Uint(12));
    assert_eq!(value("-12").unwrap().0, Value::Int(-12));
    assert!(value("x").is_err());
}

#[test]
fn field_names() {
    assert_eq!(Field::new("$id"), Field::Special(SpecialField::Id));
    assert_eq!(Field::new("$outfile"), Field::Special(SpecialField::OutFile));
    assert_eq!(Field::new("name"), Field::Plain("name".to_string()));
    for s in ["$id", "$outfile", "plain"] {
        assert_eq!(Field::new(s).as_ref(), s);
    }
}

#[test]
fn vars_and_types_from_csv() {
    let v = Vars::from_csv("$id,name\n1,a\n2,b\n").unwrap();
    assert_eq!(v.fields, vec![Field::Special(SpecialField::Id), Field::Plain("name".to_string())]);
    assert_eq!(v.values.len(), 2);
    assert_eq!(v.values[1].0[1], (Field::Plain("name".to_string()), "b".to_string()));
    let t = Type::from_csv("$id\nx\n", "job".to_string()).unwrap();
    assert_eq!(t.name, "job");
    assert_eq!(t.vars.values.len(), 1);
    assert!(Vars::from_csv("a\n1,2\n").is_err());
}

#[test]
fn dict_insert_overrides() {
    let mut d: Dict<String> = Dict::new();
    d.insert("k".to_string(), "1".to_string());
    d.insert("k".to_string(), "2".to_string());
    d.insert("j".to_string(), "3".to_string());
    assert_eq!(d.get("k"), Some(&"2".to_string()));
    assert_eq!(d.len(), 2);
    assert!(d.contains_key("j"));
    assert!(!d.contains_key("z"));
}

#[test]
fn compiled_template_pops_each_record() {
    let t = Template::compile("<{{a}}>").unwrap();
    let d = definition("a\nq\n", &[]);
    assert_eq!(t.pop(&record(&[("a", "w")]), &d), Ok("<w>".to_string()));
    let (nodes, rest) = template("x{{a}}y").unwrap();
    assert_eq!(rest, "");
    assert_eq!(nodes.len(), 3);
}

#[test]
fn loop_context_shadows_table() {
    let out = pop_one(
        "{@ for team in team @}{{team.$id}}{@ end for @}",
        "team\nred\n",
        &[("team", "$id\nred\nblue\n")],
    )
    .unwrap();
    assert_eq!(out, vec!["redblue".to_string()]);
}

#[test]
fn table_names_from_file_names() {
    assert_eq!(file_prefix("country.csv"), "country");
    assert_eq!(file_prefix("a.tar.gz"), "a");
    assert_eq!(file_prefix(".hidden.csv"), ".hidden");
    assert_eq!(file_prefix(".hidden"), ".hidden");
    assert_eq!(file_prefix("noext"), "noext");
    assert_eq!(file_prefix("..x"), ".");
    assert_eq!(file_prefix(".."), "..");
    assert_eq!(file_prefix("national morale.csv"), "national morale");
}

#[test]
fn where_clause_integer_error_names_table() {
    let err = pop_one(
        "{@ for o in outer_table where code <= 200 @}{{o.$id}}{@ end for @}",
        "outer_table\na\n",
        &[("outer_table", "$id,code\na,100\nb,lots\n")],
    )
    .unwrap_err();
    let expected = PopError::NotUnsignedInt {
        field: "code".to_string(),
        table: Some("outer_table".to_string()),
    };
    assert_eq!(err, TemplateError::Row { row: 1, error: expected.clone() });
    assert_eq!(
        expected.message(),
        "Expected `code` field in `outer_table` table to be an unsigned integer"
    );
    let bare = PopError::NotSignedInt { field: "n".to_string(), table: None };
    assert_eq!(bare.message(), "Expected `n` field to be a signed integer");
}

#[test]
fn lookup_into_vars_table() {
    let out = pop_one("{{vars.x}}", "$id,vars,x\nr1,r2,one\nr2,r1,two\n", &[]).unwrap();
    assert_eq!(out, vec!["two".to_string(), "one".to_string()]);

    let d = definition("$id,vars,x\nr1,r2,one\nr2,r1,two\n", &[("t", "$id,y\na,1\n")]);
    let ctx: InheritedContext = Dict::new();
    let rec = record(&[("vars", "r1"), ("t", "a")]);
    let found = Lookup::direct("vars").run(&rec, &d, &ctx).unwrap();
    assert_eq!(found.get("x"), Some(&"one".to_string()));
    assert_eq!(Expand::with_lookup("y", Lookup::direct("t")).run(&rec, &d, &ctx), Ok("1".to_string()));
    assert_eq!(
        Expand::with_lookup("y", Lookup::direct("nope")).run(&record(&[("nope", "a")]), &d, &ctx),
        Err(PopError::NoTable { table: "nope".to_string() })
    );
}

#[test]
fn where_clause_on_a_record() {
    let w = WhereClause::new("code", Comparator::LessThanOrEqual, Value::Uint(200));
    assert_eq!(w.field, "code");
    assert_eq!(w.matches(&record(&[("code", "100")]), "t"), Ok(true));
    assert_eq!(w.matches(&record(&[("code", "300")]), "t"), Ok(false));
    assert_eq!(
        w.matches(&record(&[("other", "1")]), "t"),
        Err(PopError::MissingField { field: "code".to_string() })
    );
    assert_eq!(
        w.matches(&record(&[("code", "x")]), "t"),
        Err(PopError::NotUnsignedInt { field: "code".to_string(), table: Some("t".to_string()) })
    );
    let team = WhereClause::new("team", Comparator::Equal, Value::Text("Allies".to_string()));
    assert_eq!(team.matches(&record(&[("team", "Allies")]), "country"), Ok(true));
}

#[test]
fn csv_error_gives_the_readers_message() {
    let expected = "CSV error: record 1 (line: 2, byte: 2): found record with 2 fields, but the previous record has 1 fields";
    let err = from_csv("t".to_string(), "a\n1,2\n").unwrap_err();
    assert_eq!(err.message, expected);
    let defs = vec![
        ("good".to_string(), "$id\nx\n".to_string()),
        ("bad".to_string(), "a\n1,2\n".to_string()),
        ("worse".to_string(), "a,b\n1\n".to_string()),
    ];
    let err = Definition::from_csv_strings("v\n1\n".to_string(), &defs).unwrap_err();
    assert_eq!(err.message, expected);
}
