use strata::json::{Json, Number};
use strata::providers::sql::filter::{where_clause, Filter, Op};
use strata::providers::sql::{is_table_not_found, quote_ident, quote_idents, quote_str, SqlError};
use strata::error::Failure;

fn json(text: &str) -> Json {
    Json::from_text(text).unwrap()
}

fn cmp(field: &str, op: Op, value: &str) -> Filter {
    Filter::Cmp { field: field.to_string(), op, value: json(value) }
}

#[test]
fn compiles_and_or_tree_with_escaping() {
    // (state IN ('CA','NY')) AND (congress >= 118 OR title LIKE '%act%')
    let f = Filter::And(vec![
        cmp("state", Op::In, r#"["CA", "NY"]"#),
        Filter::Or(vec![
            cmp("congress", Op::Gte, "118"),
            cmp("title", Op::Like, r#""%act%""#),
        ]),
    ]);
    assert_eq!(
        f.to_sql('"').unwrap(),
        r#"("state" IN ('CA', 'NY') AND ("congress" >= 118 OR "title" LIKE '%act%'))"#
    );
}

#[test]
fn escapes_quotes_in_identifiers_and_strings() {
    let f = cmp("wei\"rd", Op::Eq, r#""o'brien""#);
    assert_eq!(f.to_sql('"').unwrap(), r#""wei""rd" = 'o''brien'"#);
}

#[test]
fn null_ops_ignore_value() {
    let f = cmp("deleted_at", Op::IsNull, "null");
    assert_eq!(f.to_sql('`').unwrap(), "`deleted_at` IS NULL");
    let f = cmp("deleted_at", Op::NotNull, "[1, 2]");
    assert_eq!(f.to_sql('`').unwrap(), "`deleted_at` IS NOT NULL");
}

#[test]
fn renders_every_operator_and_value() {
    let sql = |op, value: &str| cmp("a", op, value).to_sql('"').unwrap();
    assert_eq!(sql(Op::Eq, "true"), r#""a" = TRUE"#);
    assert_eq!(sql(Op::Ne, "false"), r#""a" <> FALSE"#);
    assert_eq!(sql(Op::Lt, "-5"), r#""a" < -5"#);
    assert_eq!(sql(Op::Lte, "1.5"), r#""a" <= 1.5"#);
    assert_eq!(sql(Op::Gt, "18446744073709551615"), r#""a" > 18446744073709551615"#);
    assert_eq!(sql(Op::Eq, "null"), r#""a" = NULL"#);
    assert_eq!(sql(Op::NotIn, r#"[1, "x", null]"#), r#""a" NOT IN (1, 'x', NULL)"#);
}

#[test]
fn refuses_what_has_no_sql() {
    let refused = |op, value: &str| cmp("a", op, value).to_sql('"').unwrap_err().text();
    assert_eq!(refused(Op::Eq, "[1]"), "unsupported filter value `[1]`");
    assert_eq!(refused(Op::Eq, r#"{"b": 1}"#), r#"unsupported filter value `{"b":1}`"#);
    assert_eq!(refused(Op::Like, "1"), "`like` needs a string value, got `1`");
    assert_eq!(refused(Op::In, "1"), "`in`/`not_in` need an array value");
    assert_eq!(refused(Op::NotIn, "[]"), "`in`/`not_in` need a non-empty array");
    assert_eq!(refused(Op::In, "[1, [2]]"), "unsupported filter value `[2]`");
    assert_eq!(
        Filter::And(Vec::new()).to_sql('"').unwrap_err().text(),
        "empty `and` filter group"
    );
    assert_eq!(
        Filter::Or(Vec::new()).to_sql('"').unwrap_err().text(),
        "empty `or` filter group"
    );
}

#[test]
fn splices_a_where_clause() {
    let f = cmp("a", Op::Eq, "1");
    assert_eq!(where_clause(Some(&f), '`').unwrap(), "WHERE `a` = 1 ");
    assert_eq!(where_clause(None, '`').unwrap(), "");
    assert!(where_clause(Some(&Filter::Or(Vec::new())), '`').is_err());
    assert_eq!(where_clause(Some(&f.clone()), '`').unwrap(), "WHERE `a` = 1 ");
}

#[test]
fn quotes_double_inside_quotes() {
    assert_eq!(quote_ident("a`b", '`'), "`a``b`");
    assert_eq!(quote_ident("", '"'), "\"\"");
    assert_eq!(quote_ident("é\"", '"'), "\"é\"\"\"");
    let idents = vec!["a".to_string(), "b\"c".to_string()];
    assert_eq!(quote_idents(&idents, '"'), r#""a", "b""c""#);
    assert_eq!(quote_idents(&Vec::new(), '"'), "");
    assert_eq!(quote_str("o'brien"), "'o''brien'");
    assert_eq!(quote_str("'; DROP TABLE t; --"), "'''; DROP TABLE t; --'");
}

/// The characters of a rendered predicate outside its quotes are those of the predicate with
/// its names and strings blanked.
#[test]
fn names_and_strings_stay_in_their_quotes() {
    fn outside(sql: &str, ident: char) -> String {
        let mut quote = None;
        let mut out = String::new();
        for c in sql.chars() {
            match quote {
                Some(q) if c == q => quote = None,
                Some(_) => {}
                None if c == '\'' || c == ident => quote = Some(c),
                None => out.push(c),
            }
        }
        assert_eq!(quote, None);
        out
    }
    let hostile = Filter::And(vec![
        cmp("a\" OR 1=1 --", Op::Eq, r#""' OR ''='""#),
        cmp("b", Op::In, r#"["x') --", "'"]"#),
    ]);
    let blank = Filter::And(vec![cmp("", Op::Eq, r#""""#), cmp("", Op::In, r#"["", ""]"#)]);
    assert_eq!(
        outside(&hostile.to_sql('"').unwrap(), '"'),
        outside(&blank.to_sql('"').unwrap(), '"')
    );
}

#[test]
fn only_numbers_are_written_as_numbers() {
    let shown = |text: &str| {
        let value = Json::Number(Number::Float(text.to_string()));
        Filter::Cmp { field: "a".to_string(), op: Op::Eq, value }.to_sql('"')
    };
    for text in ["1.5", "-0.25", "1e300", "1E-7", "2.5e+10", "7"] {
        assert_eq!(shown(text).unwrap(), format!("\"a\" = {text}"));
    }
    for text in ["", "-", "1.", ".5", "1e", "1e+", "1.5x", "0 OR 1=1", "'", "NaN", "1-1", "+1"] {
        assert!(shown(text).is_err(), "{text}");
    }
}

#[test]
fn names_and_strings_leave_the_sql_around_them_alone() {
    // The text outside quotes, with one quote in place of each name or string.
    fn outline(sql: &str) -> String {
        let chars: Vec<char> = sql.chars().collect();
        let mut out = String::new();
        let mut i = 0;
        while i < chars.len() {
            let c = chars[i];
            out.push(c);
            i += 1;
            if c == '\'' || c == '"' {
                while i < chars.len() {
                    if chars[i] == c && chars.get(i + 1) == Some(&c) {
                        i += 2;
                    } else if chars[i] == c {
                        break;
                    } else {
                        i += 1;
                    }
                }
                i += 1;
            }
        }
        out
    }
    let filter = |field: &str, text: &str| {
        let cmp = |op: Op, value: Json| Filter::Cmp { field: field.to_string(), op, value };
        let list = Json::Array(vec![Json::Str(text.to_string()), Json::Null]);
        Filter::And(vec![
            cmp(Op::Eq, Json::Str(text.to_string())),
            Filter::Or(vec![cmp(Op::In, list), cmp(Op::IsNull, Json::Null)]),
        ])
        .to_sql('"')
        .unwrap()
    };
    let plain = outline(&filter("a", "b"));
    assert_eq!(plain, r#"(" = ' AND (" IN (', NULL) OR " IS NULL))"#);
    for text in ["", "'", "''", "' OR '1'='1", "\"", "x'; DROP TABLE t; --"] {
        assert_eq!(outline(&filter(text, text)), plain, "{text}");
    }
}

#[test]
fn sql_errors_say_what_is_wrong() {
    let absent = SqlError::TableNotFound("t".to_string());
    assert_eq!(absent.text(), "table `t` not found");
    let unknown = SqlError::UnsupportedColumnType("geometry".to_string());
    assert_eq!(unknown.text(), "unsupported SQL column type: `geometry`");
    assert!(is_table_not_found(&Failure::Sql(absent)));
    assert!(!is_table_not_found(&Failure::Sql(unknown)));
    assert!(!is_table_not_found(&Failure::message("table `t` not found".to_string())));
}
