use sxd_xpath::nodeset::Node;
use sxd_xpath::Value;
use table_extract::node_utils::{
    cell_of, evaluate_xpath_node, found_parts, found_tables, tables_of_nodes, value_of_outcome,
};
use table_extract::query_text::is_supported_query;
use table_extract::{extract_table_nodes_to_table, Error};

const TWO_BY_TWO: &str = r#"
<html><body>
<table>
<tr><th>1</th><td>2</td></tr>
<tr><td>3</td><td>4</td></tr>
</table>
</body></html>
"#;

#[test]
fn query_gives_the_value_of_the_expression() {
    let package = sxd_html::parse_html(TWO_BY_TWO);
    let document = package.as_document();
    let value = evaluate_xpath_node(document.root(), "count(//td)").unwrap();
    assert_eq!(value, Value::Number(3.0));
    let value = evaluate_xpath_node(document.root(), "string(//th)").unwrap();
    assert_eq!(value, Value::String("1".to_string()));
    match evaluate_xpath_node(document.root(), "//tr").unwrap() {
        Value::Nodeset(nodes) => assert_eq!(nodes.size(), 2),
        other => panic!("{:?}", other),
    }
}

#[test]
fn query_is_relative_to_the_node() {
    let package = sxd_html::parse_html(TWO_BY_TWO);
    let document = package.as_document();
    let rows = match evaluate_xpath_node(document.root(), "//tr").unwrap() {
        Value::Nodeset(nodes) => nodes.document_order(),
        other => panic!("{:?}", other),
    };
    let value = evaluate_xpath_node(rows[1], "string(./td[2])").unwrap();
    assert_eq!(value, Value::String("4".to_string()));
}

#[test]
fn query_that_does_not_parse_is_an_error() {
    let package = sxd_html::parse_html(TWO_BY_TWO);
    let document = package.as_document();
    let result = evaluate_xpath_node(document.root(), "//table[");
    assert!(matches!(result, Err(sxd_xpath::Error::Parsing(_))));
}

#[test]
fn query_without_expression_is_an_error() {
    let package = sxd_html::parse_html(TWO_BY_TWO);
    let document = package.as_document();
    let result = evaluate_xpath_node(document.root(), "");
    assert!(matches!(result, Err(sxd_xpath::Error::NoXPath)));
}

#[test]
fn query_that_cannot_be_run_is_an_error() {
    let package = sxd_html::parse_html(TWO_BY_TWO);
    let document = package.as_document();
    let result = evaluate_xpath_node(document.root(), "no-such-function()");
    assert!(matches!(result, Err(sxd_xpath::Error::Executing(_))));
}

#[test]
fn found_tables_names_each_case() {
    let package = sxd_html::parse_html(TWO_BY_TWO);
    let document = package.as_document();
    let root: Node = document.root().into();
    assert_eq!(found_tables(Ok(Some(vec![root]))).unwrap(), vec![root]);
    assert!(found_tables(Ok(Some(Vec::new()))).unwrap().is_empty());
    assert!(matches!(found_tables(Ok(None)), Err(Error::TableNotFound)));
    assert!(matches!(
        found_tables(Err(sxd_xpath::Error::NoXPath)),
        Err(Error::XPathEvaluationError(sxd_xpath::Error::NoXPath))
    ));
}

#[test]
fn found_parts_names_each_case() {
    let package = sxd_html::parse_html(TWO_BY_TWO);
    let document = package.as_document();
    let root: Node = document.root().into();
    assert_eq!(found_parts(Ok(Some(vec![root, root]))).unwrap(), vec![root, root]);
    assert!(found_parts(Ok(Some(Vec::new()))).unwrap().is_empty());
    assert!(matches!(found_parts(Ok(None)), Err(Error::InvalidDocument)));
    assert!(matches!(
        found_parts(Err(sxd_xpath::Error::NoXPath)),
        Err(Error::XPathEvaluationError(sxd_xpath::Error::NoXPath))
    ));
    let failure = evaluate_xpath_node(document.root(), "no-such-function()").unwrap_err();
    match found_parts(Err(failure.clone())) {
        Err(Error::XPathEvaluationError(handed_on)) => assert_eq!(handed_on, failure),
        other => panic!("{:?}", other),
    }
}

#[test]
fn no_table_nodes_give_no_grids() {
    assert!(tables_of_nodes(&Vec::new()).unwrap().is_empty());
    let package = sxd_html::parse_html("<html><body><p>1</p></body></html>");
    let document = package.as_document();
    assert!(extract_table_nodes_to_table(document.root()).unwrap().is_empty());
}

#[test]
fn node_without_rows_gives_one_empty_slot() {
    let package = sxd_html::parse_html("<html><body><p>1</p><table></table></body></html>");
    let document = package.as_document();
    let tables = extract_table_nodes_to_table(document.root()).unwrap();
    assert_eq!(tables.len(), 1);
    assert_eq!(tables[0].to_string_table().to_csv().unwrap(), "\"\"\n");
    let root: Node = document.root().into();
    let tables = tables_of_nodes(&vec![root, root]).unwrap();
    assert_eq!(tables.len(), 2);
    assert_eq!(tables[1].rows(), vec![vec![None]]);
}

#[test]
fn header_cells_raise_the_flag_on_every_position_they_hold() {
    let html = r#"
    <html><body><table>
    <tr><th rowspan="2" colspan="2">H</th><td>x</td></tr>
    <tr><td>y</td></tr>
    <tr><td>z</td><th>h</th></tr>
    </table></body></html>
    "#;
    let package = sxd_html::parse_html(html);
    let document = package.as_document();
    let tables = extract_table_nodes_to_table(document.root()).unwrap();
    assert_eq!(tables.len(), 1);
    let table = &tables[0];
    let expected = [[true, true, false], [true, true, false], [false, true, false]];
    for row in 0..3 {
        for col in 0..3 {
            assert_eq!(table.is_header(row, col), expected[row][col], "{} {}", row, col);
        }
    }
    let texts = table.to_string_table();
    assert_eq!(texts.to_csv().unwrap(), "H,H,x\nH,H,y\nz,h,\n");
    for row in 0..3 {
        for col in 0..3 {
            assert_eq!(texts.is_header(row, col), expected[row][col], "{} {}", row, col);
        }
    }
}

#[test]
fn texts_with_header_carry_the_kind_of_each_cell() {
    let package = sxd_html::parse_html(TWO_BY_TWO);
    let document = package.as_document();
    let tables = extract_table_nodes_to_table(document.root()).unwrap();
    let texts = tables[0].to_string_table_with_header();
    let rows = texts.rows();
    assert_eq!(rows[0][0], Some(&("1".to_string(), true)));
    assert_eq!(rows[0][1], Some(&("2".to_string(), false)));
    assert_eq!(rows[1][0], Some(&("3".to_string(), false)));
    assert_eq!(rows[1][1], Some(&("4".to_string(), false)));
}

#[test]
fn malformed_spans_count_as_one() {
    let html = r#"
    <html><body>
    <table>
        <tr><td>a</td><td>b</td></tr>
        <tr><td rowspan="a" colspan="">c</td><td rowspan="-1" colspan="0">d</td></tr>
    </table>
    <table>
        <tr><td>a</td><td>b</td></tr>
        <tr><td rowspan="1" colspan="1">c</td><td>d</td></tr>
    </table>
    </body></html>
    "#;
    let package = sxd_html::parse_html(html);
    let document = package.as_document();
    let tables = extract_table_nodes_to_table(document.root()).unwrap();
    assert_eq!(tables.len(), 2);
    let malformed = tables[0].to_string_table().to_csv().unwrap();
    let explicit = tables[1].to_string_table().to_csv().unwrap();
    assert_eq!(malformed, "a,b\nc,d\n");
    assert_eq!(malformed, explicit);
}

#[test]
fn table_too_large_to_address_fails_the_whole_document() {
    let html = r#"
    <html><body>
    <table><tr><td>1</td></tr></table>
    <table>
        <tr><td>a</td></tr>
        <tr><td rowspan="18446744073709551615">b</td></tr>
    </table>
    </body></html>
    "#;
    let package = sxd_html::parse_html(html);
    let document = package.as_document();
    let result = extract_table_nodes_to_table(document.root());
    assert!(matches!(result, Err(Error::InvalidDocument)));
}

#[test]
fn queries_without_prefix_and_name_call_are_supported() {
    for expr in [
        "",
        "//table",
        "./tbody/tr",
        "./td|./th",
        "child::td",
        "/descendant-or-self::node()/child::table",
        "count(//td) + 1",
        "string(//th)",
        "names",
        "name",
        "name (",
        "::",
        "a::b",
        "local-name()",
        "local-name(.)",
        "//*[local-name()='td']",
        "my.name(.)",
        "_name()",
        "xname()",
        "a3-name()",
        "rename(.)",
    ] {
        assert!(is_supported_query(expr), "{:?}", expr);
    }
}

#[test]
fn string_literals_are_skipped() {
    for expr in [
        "'a:b'",
        "\"a:b\"",
        "string('x:y')",
        "//td[. = 'name(']",
        "concat('name(', \"name(\")",
        "\"it's: name(\"",
        "'say \"x:y\"'",
        "'never closed: name(",
        "contains(., ':') and local-name() = 'td'",
    ] {
        assert!(is_supported_query(expr), "{:?}", expr);
    }
    for expr in [
        "'a':b",
        "'a'name()",
        "'x' = name()",
        "'a:b' | x:y",
        "\"'\"name(.)",
        "'\"'x:y",
    ] {
        assert!(!is_supported_query(expr), "{:?}", expr);
    }
}

#[test]
fn queries_with_prefix_or_name_call_are_not_supported() {
    for expr in [
        "//x:td",
        "x:*",
        ":",
        "a:",
        ":a",
        "a::b:c",
        "a:b::c",
        "$x:y",
        "x:f()",
        "name()",
        "name(.)",
        "//*[name()='td']",
        "string(name(..))",
        "3-name(.)",
        "3name(.)",
        ".name()",
        "-name()",
        "1 divname(.)",
        "1 div-name(.)",
        "a orname(.)",
        "a andname(.)",
        "5 mod.name(.)",
        "\u{e9}name()",
    ] {
        assert!(!is_supported_query(expr), "{:?}", expr);
    }
}

#[test]
fn supported_queries_do_not_panic_in_the_engine() {
    let package = sxd_html::parse_html(TWO_BY_TWO);
    let document = package.as_document();
    assert_eq!(
        evaluate_xpath_node(document.root(), "local-name(//th)").unwrap(),
        Value::String("th".to_string())
    );
    assert_eq!(
        evaluate_xpath_node(document.root(), "count(//*[local-name()='td'])").unwrap(),
        Value::Number(3.0)
    );
    assert_eq!(
        evaluate_xpath_node(document.root(), "'a:b'").unwrap(),
        Value::String("a:b".to_string())
    );
    assert_eq!(
        evaluate_xpath_node(document.root(), "concat('name(', \"x:y\")").unwrap(),
        Value::String("name(x:y".to_string())
    );
    for expr in [
        "my.name(.)",
        "_name()",
        "xname()",
        "a3-name()",
        "rename(.)",
        "'never closed: name(",
        "name (",
        "a::b",
    ] {
        assert!(is_supported_query(expr), "{:?}", expr);
        assert!(evaluate_xpath_node(document.root(), expr).is_err(), "{:?}", expr);
    }
}

#[test]
fn axis_names_are_taken_by_the_engine() {
    let package = sxd_html::parse_html(TWO_BY_TWO);
    let document = package.as_document();
    let expr = "count(/descendant-or-self::node()/child::td)";
    assert!(is_supported_query(expr));
    assert_eq!(evaluate_xpath_node(document.root(), expr).unwrap(), Value::Number(3.0));
}

#[test]
fn value_of_outcome_names_each_case() {
    let missing = sxd_xpath::Error::NoXPath;
    assert_eq!(
        value_of_outcome(Ok(Some(Value::Number(3.0))), missing.clone()),
        Ok(Value::Number(3.0))
    );
    assert_eq!(
        value_of_outcome(Ok(Some(Value::String("a".to_string()))), missing.clone()),
        Ok(Value::String("a".to_string()))
    );
    assert_eq!(value_of_outcome(Ok(None), missing.clone()), Err(sxd_xpath::Error::NoXPath));
    let package = sxd_html::parse_html(TWO_BY_TWO);
    let document = package.as_document();
    let failure = evaluate_xpath_node(document.root(), "no-such-function()").unwrap_err();
    assert!(matches!(failure, sxd_xpath::Error::Executing(_)));
    assert_eq!(value_of_outcome(Err(failure.clone()), missing), Err(failure));
}

#[test]
fn text_that_does_not_compile_gives_no_value() {
    let package = sxd_html::parse_html(TWO_BY_TWO);
    let document = package.as_document();
    for expr in ["", "   ", "//table[", "//", "1 +", ")", "@"] {
        assert!(is_supported_query(expr), "{:?}", expr);
        assert!(evaluate_xpath_node(document.root(), expr).is_err(), "{:?}", expr);
    }
}

#[test]
fn cell_of_refuses_a_node_that_is_no_element() {
    let package = sxd_html::parse_html(TWO_BY_TWO);
    let document = package.as_document();
    let root: Node = document.root().into();
    assert!(matches!(cell_of(root, None), Err(Error::InvalidDocument)));
    assert!(matches!(cell_of("text", None), Err(Error::InvalidDocument)));
}

#[test]
fn cell_of_describes_an_element_by_what_was_read() {
    let cell = cell_of("content", Some((2, 3, true))).unwrap();
    assert_eq!(cell.row_span, 2);
    assert_eq!(cell.col_span, 3);
    assert!(cell.is_header);
    assert_eq!(cell.content, "content");
    let cell = cell_of(7u8, Some((1, 1, false))).unwrap();
    assert_eq!((cell.row_span, cell.col_span, cell.is_header, cell.content), (1, 1, false, 7));
}
