use ovn_core::error::OvnError;
use ovn_core::format::obe::FieldMap;
use ovn_core::query::sql_parser::{parse_sql_query, SqlLiteral, SqlParser, SqlToken, SqlValue};

fn text(s: &str) -> SqlValue {
    SqlValue::Literal(SqlLiteral::Text(s.to_string()))
}

fn integer(i: i64) -> SqlValue {
    SqlValue::Literal(SqlLiteral::Integer(i))
}

fn obj(entries: Vec<(&str, SqlValue)>) -> SqlValue {
    let mut m = FieldMap::new();
    for (k, v) in entries {
        m.insert(k.to_string(), v);
    }
    SqlValue::Object(m)
}

fn syntax_error(r: Result<ovn_core::query::sql_parser::SqlQuery, OvnError>) -> (usize, String) {
    match r {
        Err(OvnError::QuerySyntaxError { position, message }) => (position, message),
        other => panic!("expected a syntax error, got {:?}", other),
    }
}

#[test]
fn test_tokenize_simple() {
    let tokens = SqlParser::tokenize("SELECT name, age FROM users");
    assert!(matches!(&tokens[0], SqlToken::Keyword(k) if k == "SELECT"));
}

#[test]
fn test_parse_select_basic() {
    let mut p = SqlParser::new("SELECT * FROM users WHERE age > 18 ORDER BY name DESC LIMIT 10");
    let q = p.parse().unwrap();
    assert_eq!(q.query_type, "select");
    assert_eq!(q.collection, Some("users".to_string()));
    assert_eq!(q.limit, Some(10));
}

#[test]
fn test_parse_insert() {
    let mut p = SqlParser::new("INSERT INTO users (name, age) VALUES ('Alice', 28)");
    let q = p.parse().unwrap();
    assert_eq!(q.query_type, "insert");
    assert!(q.insert_values.is_some());
}

#[test]
fn tokenize_all_kinds() {
    let tokens = SqlParser::tokenize("select a_1, * FROM t WHERE x >= -3 AND y != 'it''s' OR z = 2.5 -- ;");
    assert_eq!(
        tokens,
        vec![
            SqlToken::Keyword("SELECT".to_string()),
            SqlToken::Identifier("a_1".to_string()),
            SqlToken::Punctuation(','),
            SqlToken::Star,
            SqlToken::Keyword("FROM".to_string()),
            SqlToken::Identifier("t".to_string()),
            SqlToken::Keyword("WHERE".to_string()),
            SqlToken::Identifier("x".to_string()),
            SqlToken::Operator(">=".to_string()),
            SqlToken::Literal(SqlLiteral::Integer(-3)),
            SqlToken::Keyword("AND".to_string()),
            SqlToken::Identifier("y".to_string()),
            SqlToken::Operator("!=".to_string()),
            SqlToken::Literal(SqlLiteral::Text("it".to_string())),
            SqlToken::Literal(SqlLiteral::Text("s".to_string())),
            SqlToken::Keyword("OR".to_string()),
            SqlToken::Identifier("z".to_string()),
            SqlToken::Operator("=".to_string()),
            SqlToken::Literal(SqlLiteral::Decimal("2.5".to_string())),
        ]
    );
}

#[test]
fn tokenize_numbers() {
    let toks = SqlParser::tokenize("9223372036854775807 9223372036854775808 -9223372036854775808 1.2.3 . 5. - 007");
    assert_eq!(
        toks,
        vec![
            SqlToken::Literal(SqlLiteral::Integer(i64::MAX)),
            SqlToken::Literal(SqlLiteral::Integer(i64::MIN)),
            SqlToken::Literal(SqlLiteral::Decimal("5.".to_string())),
            SqlToken::Literal(SqlLiteral::Integer(7)),
        ]
    );
}

#[test]
fn tokenize_unterminated_string_runs_to_end() {
    let toks = SqlParser::tokenize("'abc");
    assert_eq!(toks, vec![SqlToken::Literal(SqlLiteral::Text("abc".to_string()))]);
}

#[test]
fn where_clause_builds_filter_objects() {
    let q = parse_sql_query("SELECT * FROM users WHERE age > 18").unwrap();
    assert_eq!(q.filter, Some(obj(vec![("age", obj(vec![("$gt", integer(18))]))])));
    assert_eq!(q.fields, vec!["*".to_string()]);

    let q = parse_sql_query("SELECT a FROM t WHERE x IS NULL").unwrap();
    assert_eq!(q.filter, Some(obj(vec![("x", SqlValue::Null)])));

    let q = parse_sql_query("DELETE FROM t WHERE a = 1 AND b <= 'z'").unwrap();
    assert_eq!(q.query_type, "delete");
    assert_eq!(
        q.filter,
        Some(obj(vec![
            ("a", obj(vec![("$eq", integer(1))])),
            ("b", obj(vec![("$lte", text("z"))])),
        ]))
    );

    // AND merges objects: the right-hand condition on the same field wins
    let q = parse_sql_query("SELECT * FROM t WHERE age > 18 AND age < 30").unwrap();
    assert_eq!(q.filter, Some(obj(vec![("age", obj(vec![("$lt", integer(30))]))])));
}

#[test]
fn or_and_parentheses() {
    let q = parse_sql_query("SELECT * FROM t WHERE (a = 1 OR b = 2) AND c = 3").unwrap();
    let or = obj(vec![(
        "$or",
        SqlValue::Array(vec![
            obj(vec![("a", obj(vec![("$eq", integer(1))]))]),
            obj(vec![("b", obj(vec![("$eq", integer(2))]))]),
        ]),
    )]);
    let expected = match or {
        SqlValue::Object(mut m) => {
            m.insert("c".to_string(), obj(vec![("$eq", integer(3))]));
            SqlValue::Object(m)
        }
        _ => unreachable!(),
    };
    assert_eq!(q.filter, Some(expected));
}

#[test]
fn select_clauses() {
    let q = parse_sql_query(
        "SELECT name, age FROM users JOIN orders AS o ON id = userId GROUP BY name, age ORDER BY age DESC, name LIMIT 5 SKIP 2",
    )
    .unwrap();
    assert_eq!(q.fields, vec!["name".to_string(), "age".to_string()]);
    assert_eq!(q.joins.len(), 1);
    assert_eq!(q.joins[0].collection, "orders");
    assert_eq!(q.joins[0].alias, "o");
    assert_eq!(q.joins[0].local_field, "id");
    assert_eq!(q.joins[0].foreign_field, "userId");
    assert_eq!(q.group_by, Some(vec!["name".to_string(), "age".to_string()]));
    assert_eq!(q.sort, Some(vec![("age".to_string(), -1), ("name".to_string(), 1)]));
    assert_eq!(q.limit, Some(5));
    assert_eq!(q.skip, Some(2));
    assert_eq!(q.filter, None);

    let q = parse_sql_query("SELECT * FROM t LIMIT -1").unwrap();
    assert_eq!(q.limit, None);
}

#[test]
fn insert_names_missing_fields() {
    let q = parse_sql_query("INSERT INTO users (name) VALUES ('Bob', 7)").unwrap();
    assert_eq!(q.collection, Some("users".to_string()));
    assert_eq!(
        q.insert_values,
        Some(vec![obj(vec![("name", text("Bob")), ("field_1", integer(7))])])
    );
    let q = parse_sql_query("INSERT INTO users VALUES").unwrap();
    assert_eq!(q.insert_values, Some(vec![]));
}

#[test]
fn update_set_list() {
    let q = parse_sql_query("UPDATE users SET age = 30, name = 'X' WHERE id = 1").unwrap();
    assert_eq!(q.query_type, "update");
    assert_eq!(q.update_set, Some(obj(vec![("age", integer(30)), ("name", text("X"))])));
    assert_eq!(q.filter, Some(obj(vec![("id", obj(vec![("$eq", integer(1))]))])));
}

#[test]
fn syntax_errors_with_positions() {
    assert_eq!(
        syntax_error(parse_sql_query("DROP TABLE t")),
        (0, "Expected SELECT, INSERT, UPDATE, or DELETE".to_string())
    );
    assert_eq!(syntax_error(parse_sql_query("SELECT a b")), (2, "Expected 'FROM'".to_string()));
    assert_eq!(syntax_error(parse_sql_query("INSERT users")), (1, "Expected 'INTO'".to_string()));
    assert_eq!(syntax_error(parse_sql_query("UPDATE t a = 1")), (2, "Expected 'SET'".to_string()));
    assert_eq!(syntax_error(parse_sql_query("UPDATE t SET a 1")), (4, "Expected '='".to_string()));
    assert_eq!(
        syntax_error(parse_sql_query("SELECT * FROM t WHERE a >")),
        (7, "Expected condition".to_string())
    );
    assert_eq!(
        syntax_error(parse_sql_query("SELECT * FROM t WHERE (a = 1")),
        (9, "Expected ')'".to_string())
    );
    assert_eq!(
        syntax_error(parse_sql_query("SELECT * FROM t JOIN ON")),
        (5, "Expected collection after JOIN".to_string())
    );
    assert_eq!(
        syntax_error(parse_sql_query("SELECT * FROM t JOIN u ON a < b")),
        (8, "Expected '='".to_string())
    );
    assert_eq!(syntax_error(parse_sql_query("SELECT * FROM t GROUP name")), (5, "Expected 'BY'".to_string()));
}
