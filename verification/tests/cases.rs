use popvars::{pop, Definition, Record, Table};

struct TestCase {
    definition: Definition,
    template: String,
    expected: String,
    includes: Vec<(String, String)>,
}

impl TestCase {
    fn run(self) -> Result<(), String> {
        let actual = pop(self.template.as_str(), self.definition).map_err(|e| format!("{e:?}"))?;
        let first = actual.join("");

        assert_eq!(self.expected, first);
        Ok(())
    }
}

fn skip_ws(input: &str) -> &str {
    input.trim_start()
}

/// "```", whitespace, then everything up to the next "```".
fn code_block(input: &str) -> Option<(String, &str)> {
    let rest = input.strip_prefix("```")?;
    let trimmed = skip_ws(rest);
    if trimmed.len() == rest.len() {
        return None;
    }
    let end = trimmed.find("```")?;
    Some((trimmed[..end].to_string(), &trimmed[end + 3..]))
}

fn named_code_block<'a>(name: &str, input: &'a str) -> Option<(String, &'a str)> {
    let rest = skip_ws(input).strip_prefix(name)?.strip_prefix(':')?;
    code_block(skip_ws(rest))
}

fn dynamic_named_code_block(input: &str) -> Option<((String, String), &str)> {
    let rest = skip_ws(input);
    let end = rest.find(|c| c == '\r' || c == '\n' || c == ':')?;
    if end == 0 || !rest[end..].starts_with(':') {
        return None;
    }
    let name = rest[..end].to_string();
    let (block, remaining) = code_block(skip_ws(&rest[end + 1..]))?;
    Some(((name, block), remaining))
}

fn parse_test_case(input: &str) -> Option<(TestCase, &str)> {
    let (template, rest) = named_code_block("template", input)?;
    let (expected, rest) = named_code_block("output", rest)?;
    let (vars, mut rest) = named_code_block("vars", rest)?;

    let mut defs = Vec::new();
    while defs.len() < 20 && !rest.starts_with("## includes") {
        match dynamic_named_code_block(rest) {
            Some((def, remaining)) => {
                defs.push(def);
                rest = remaining;
            }
            None => break,
        }
    }

    let trimmed = skip_ws(rest);
    if let Some(after) = trimmed.strip_prefix("## includes") {
        rest = skip_ws(after);
    }

    let mut includes = Vec::new();
    while includes.len() < 20 {
        match dynamic_named_code_block(rest) {
            Some((inc, remaining)) => {
                includes.push(inc);
                rest = remaining;
            }
            None => break,
        }
    }

    let definition = Definition::from_csv_strings(vars, &defs).ok()?;

    Some((
        TestCase {
            definition,
            template,
            expected,
            includes,
        },
        rest,
    ))
}

fn run_case(input: &str) -> Result<(), String> {
    let (test_case, _) = parse_test_case(input).ok_or("test case does not parse")?;
    test_case.run()
}

pub fn build_test_table(name: &str, fields: &[&str], len: usize) -> Table {
    let mut records = Vec::new();

    let record = |idx| {
        let mut map = Record::new();
        for field in fields {
            map.insert(field.to_string(), format!("{field} #{idx}"));
        }
        map
    };

    for idx in 0..len {
        records.push(record(idx));
    }

    Table::new(name.to_string(), records)
}

#[test]
fn test_table_index() -> Result<(), String> {
    let fields = &["$id", "bar", "baz quux"];
    let table = build_test_table("test table", fields, 5);

    let record = table.index("$id #3").map_err(|e| e.message())?.unwrap();
    assert_eq!(record.get("bar"), Some(&String::from("bar #3")));

    let record = table.index("$id #8").map_err(|e| e.message())?;
    assert_eq!(record, None);

    let record = table.index("7").map_err(|e| e.message())?;
    assert_eq!(record, None);

    let fields = &["no $id field"];
    let table = build_test_table("missing $id", fields, 3);

    let Err(err) = table.index("$id #3") else {
        panic!("expected error!");
    };

    assert_eq!(
        err.message(),
        String::from("Invalid table `missing $id` has no $id field")
    );

    Ok(())
}

#[test]
fn test_case_works() -> Result<(), String> {
    let input = TEST_PARSING_TEST.replace("\r\n", "\n");

    let (output, _) = parse_test_case(input.as_str()).ok_or("no parse")?;

    assert_eq!(
        output.template,
        String::from("foo is in vars: {{foo}}\n\nouter_table is in defs: {{outer_table.code}}\n{@ for outer in outer_table @}\n    `outer.code` now refers to the same table as `outer_table.code`\n    {{outer.$id}}={{outer.code}}\n{@ end for @}\n")
    );

    assert_eq!(
        output.expected,
        String::from("foo is in vars: 1\n\nouter_table is in defs: 100\n\n    `outer.code` now refers to the same table as `outer_table.code`\n    a=100\n\n    `outer.code` now refers to the same table as `outer_table.code`\n    b=200\n\n    `outer.code` now refers to the same table as `outer_table.code`\n    c=300\n\n")
    );

    assert_eq!(output.definition.defs.len(), 1);
    assert_eq!(
        output
            .definition
            .defs
            .get("outer_table")
            .unwrap()
            .records
            .len(),
        3
    );
    assert_eq!(
        output.definition.defs.get("outer_table").unwrap().records[1]
            .get("code")
            .unwrap(),
        "200"
    );
    assert_eq!(output.definition.vars.records.len(), 1);

    assert_eq!(output.includes.len(), 2);
    assert_eq!(output.includes[0], ("includes/part one.txt".into(), "This is another template that may be included in the topmost template. {{ included }}\n\nIt is free to include further includes inside itself: {@ pop `includes/part two.txt` with \"Hi part two, it's 'part one' here\" as `variable for part two` @}\n".into()));

    Ok(())
}

#[test]
fn named_code_block_works() -> Result<(), String> {
    let input = TEST_PARSING_TEST.replace("\r\n", "\n");
    let (matched, remaining) = named_code_block("template", input.as_str()).ok_or("no parse")?;
    assert_eq!(
        matched,
        "foo is in vars: {{foo}}\n\nouter_table is in defs: {{outer_table.code}}\n{@ for outer in outer_table @}\n    `outer.code` now refers to the same table as `outer_table.code`\n    {{outer.$id}}={{outer.code}}\n{@ end for @}\n"
    );
    assert!(remaining.starts_with("\n\noutput:\n\n```\nfoo is in vars: 1\n\nouter_table is in defs: 100\n\n    `outer.code` now refers to the same table as `outer_table.code`\n    a=100\n\n    `outer.code` now refers to the same table as `outer_table.code`\n    b=200\n\n    `outer.code` now refers to the same table as `outer_table.code`\n    c=300\n\n```\n\nvars:\n\n```\nfoo,outer_table\n1,a\n```\n\nouter_table:\n\n```\n$id,code\na,100\nb,200\nc,300\n```\n"));
    Ok(())
}

#[test]
fn nested_for_loop() -> Result<(), String> {
    run_case(FOR_LOOP_NESTED)
}

#[test]
fn integration_simple() -> Result<(), String> {
    run_case(SIMPLE)
}

#[test]
fn simple_simple() -> Result<(), String> {
    run_case(SIMPLE)
}

#[test]
fn for_loop_other_case() -> Result<(), String> {
    run_case(FOR_LOOP_OTHER)
}

#[test]
fn for_loop_nested_deep_case() -> Result<(), String> {
    run_case(FOR_LOOP_NESTED_DEEP)
}

#[test]
fn for_loop_where_clause_lookup_case() -> Result<(), String> {
    run_case(FOR_LOOP_WHERE_CLAUSE_LOOKUP)
}

#[test]
fn if_lookup_case() -> Result<(), String> {
    run_case(IF_LOOKUP)
}

#[test]
fn single_for_loop_with_where_clause() -> Result<(), String> {
    run_case(FOR_LOOP_WHERE_CLAUSE)
}

#[test]
fn for_loop_test_cases() -> Result<(), String> {
    for case in [
        FOR_LOOP_NESTED_DEEP,
        FOR_LOOP_NESTED,
        FOR_LOOP_OTHER,
        FOR_LOOP_WHERE_CLAUSE_LOOKUP,
        FOR_LOOP_WHERE_CLAUSE,
    ] {
        run_case(case)?;
    }
    Ok(())
}

pub const TEST_PARSING_TEST: &str = "template:\n\n```\nfoo is in vars: {{foo}}\n\nouter_table is in defs: {{outer_table.code}}\n{@ for outer in outer_table @}\n    `outer.code` now refers to the same table as `outer_table.code`\n    {{outer.$id}}={{outer.code}}\n{@ end for @}\n```\n\noutput:\n\n```\nfoo is in vars: 1\n\nouter_table is in defs: 100\n\n    `outer.code` now refers to the same table as `outer_table.code`\n    a=100\n\n    `outer.code` now refers to the same table as `outer_table.code`\n    b=200\n\n    `outer.code` now refers to the same table as `outer_table.code`\n    c=300\n\n```\n\nvars:\n\n```\nfoo,outer_table\n1,a\n```\n\nouter_table:\n\n```\n$id,code\na,100\nb,200\nc,300\n```\n\n## includes\n\nincludes/part one.txt:\n\n```\nThis is another template that may be included in the topmost template. {{ included }}\n\nIt is free to include further includes inside itself: {@ pop `includes/part two.txt` with \"Hi part two, it's 'part one' here\" as `variable for part two` @}\n```\n\nincludes/part two.txt:\n\n```\n{{variable for part two}}\n```\n";

pub const SIMPLE: &str = "template:\n\n```\nfoo is in vars: {{foo}}\nouter_table is in defs: {{outer_table.code}}\n```\n\noutput:\n\n```\nfoo is in vars: 1\nouter_table is in defs: 100\n```\n\nvars:\n\n```\nfoo,outer_table\n1,a\n```\n\nouter_table:\n\n```\n$id,code\na,100\nb,200\nc,300\n```\n";

pub const FOR_LOOP_NESTED: &str = "template:\n\n```\nfoo is in vars: {{foo}}\n\nouter_table is in defs: {{outer_table.code}}\ninner_table is in defs: {{inner_table.code}}\n{@ for outer in outer_table @}\n`outer.code` now refers to the same table as `outer_table.code`\n{{outer.$id}}={{outer.code}}\n\nabout to go inside the inner loop:\n{@ for inner in inner_table @}\n`inner.code` now refers to the same table as `inner_table.code`\n{{inner.$id}}={{inner.code}}\n\n`outer.code` still refers to the same table as `outer_table.code` inside the inner loop\n{{outer.$id}}={{outer.code}}\n{@ end for @}\n\n{@ end for @}\n```\n\noutput:\n\n```\nfoo is in vars: 1\n\nouter_table is in defs: 100\ninner_table is in defs: 111\n\n`outer.code` now refers to the same table as `outer_table.code`\na=100\n\nabout to go inside the inner loop:\n\n`inner.code` now refers to the same table as `inner_table.code`\naa=111\n\n`outer.code` still refers to the same table as `outer_table.code` inside the inner loop\na=100\n\n`inner.code` now refers to the same table as `inner_table.code`\nbb=222\n\n`outer.code` still refers to the same table as `outer_table.code` inside the inner loop\na=100\n\n\n\n`outer.code` now refers to the same table as `outer_table.code`\nb=200\n\nabout to go inside the inner loop:\n\n`inner.code` now refers to the same table as `inner_table.code`\naa=111\n\n`outer.code` still refers to the same table as `outer_table.code` inside the inner loop\nb=200\n\n`inner.code` now refers to the same table as `inner_table.code`\nbb=222\n\n`outer.code` still refers to the same table as `outer_table.code` inside the inner loop\nb=200\n\n\n\n```\n\nvars:\n\n```\nfoo,outer_table,inner_table\n1,a,aa\n```\n\nouter_table:\n\n```\n$id,code\na,100\nb,200\n```\n\ninner_table:\n\n```\n$id,code\naa,111\nbb,222\n```\n";

pub const FOR_LOOP_NESTED_DEEP: &str = "template:\n\n```\nThe innermost loop \\{\\@ for outer in outer_table \\@\\} replaces the context with the same in the outermost loop, so we see exactly the same output twice: once for each row in outer_table.\n{@ for outer in outer_table @}{@ for inner in inner_table @}{@ for outer in outer_table @}{{inner.$id}}={{inner.code}},{{outer.$id}}={{outer.code}};{@ end for @}{@ end for @}{@ end for @}\n```\n\noutput:\n\n```\nThe innermost loop {@ for outer in outer_table @} replaces the context with the same in the outermost loop, so we see exactly the same output twice: once for each row in outer_table.\naa=111,a=100;aa=111,b=200;bb=222,a=100;bb=222,b=200;aa=111,a=100;aa=111,b=200;bb=222,a=100;bb=222,b=200;\n```\n\nvars:\n\n```\nfoo,outer_table,inner_table\n1,a,aa\n```\n\nouter_table:\n\n```\n$id,code\na,100\nb,200\n```\n\ninner_table:\n\n```\n$id,code\naa,111\nbb,222\n```\n";

pub const FOR_LOOP_OTHER: &str = "template:\n\n```\n`{{outer_table}}={{outer_table.code}}` will not be included in the for loop due to the use of \"other\"\n{@ for other outer in outer_table @}[{{outer.$id}}={{outer.code}}]{@ end for @}\n```\n\noutput:\n\n```\n`a=100` will not be included in the for loop due to the use of \"other\"\n[b=200][c=300]\n```\n\nvars:\n\n```\nfoo,outer_table\n1,a\n```\n\nouter_table:\n\n```\n$id,code\na,100\nb,200\nc,300\n```\n";

pub const FOR_LOOP_WHERE_CLAUSE: &str = "template:\n\n```\nfoo is in vars: {{foo}}\n\nouter_table is in defs: {{outer_table.code}}\n{@ for outer in outer_table where code<=200 @}\n    `outer.code` now refers to the same table as `outer_table.code`\n    {{outer.$id}}={{outer.code}}\n{@ end for @}\n```\n\noutput:\n\n```\nfoo is in vars: 1\n\nouter_table is in defs: 100\n\n    `outer.code` now refers to the same table as `outer_table.code`\n    a=100\n\n    `outer.code` now refers to the same table as `outer_table.code`\n    b=200\n\n```\n\nvars:\n\n```\nfoo,outer_table\n1,a\n```\n\nouter_table:\n\n```\n$id,code\na,100\nb,200\nc,300\n```\n";

pub const FOR_LOOP_WHERE_CLAUSE_LOOKUP: &str = "template:\n\n```\nfoo is in vars: {{foo}}\n\nouter_table is in defs: {{outer_table.code}}\nNote that the $id in this for loop where clause refers to *the $id of outer_table* This is pretty confusing I expect!\n{@ for outer in outer_table where bar_table@code.bar = \"bar3\" @}\n    {{outer.$id}}={{outer.code}}\n{@ end for @}\n```\n\noutput:\n\n```\nfoo is in vars: 1\n\nouter_table is in defs: 100\nNote that the $id in this for loop where clause refers to *the $id of outer_table* This is pretty confusing I expect!\n\n    c=300\n\n```\n\nvars:\n\n```\nfoo,outer_table\n1,a\n```\n\nouter_table:\n\n```\n$id,code\na,100\nb,200\nc,300\n```\n\nbar_table:\n\n```\n$id,bar\n100,bar1\n200,bar2\n300,bar3\n```\n";

pub const IF_LOOKUP: &str = "template:\n\n```\n{{country}}{@ if `country`.`team`=\"Axis\" @} (Axis){@ end if @}\n```\n\noutput:\n\n```\nFrance\nGermany (Axis)\nItaly (Axis)\n```\n\nvars:\n\n```\ncountry\nFrance\nGermany\nItaly\n```\n\ncountry:\n\n```\n$id,team\nFrance,Allies\nGermany,Axis\nItaly,Axis\n```\n";
