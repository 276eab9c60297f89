use fastsql2json::sql_executor::SqlExecutor;

#[test]
fn test_sql_cleaning() {
    let sql_with_comments = "-- This is a single line comment\nSELECT * FROM users WHERE id = 1; /* This is a\nmultiline comment */\n-- Another single line comment\nWITH cte AS (SELECT * FROM orders) SELECT * FROM cte;\n";

    let cleaned_sql = SqlExecutor::clean_sql(sql_with_comments);

    assert!(!cleaned_sql.contains("-- This is a single line comment"));
    assert!(!cleaned_sql.contains("/* This is a"));
    assert!(!cleaned_sql.contains("multiline comment */"));
    assert!(!cleaned_sql.contains("-- Another single line comment"));

    assert!(cleaned_sql.contains("SELECT * FROM users WHERE id = 1;"));
    assert!(cleaned_sql.contains("WITH cte AS (SELECT * FROM orders) SELECT * FROM cte;"));
}

#[test]
fn line_comment_keeps_newline() {
    let cleaned = SqlExecutor::clean_sql("SELECT 1; -- trailing\nSELECT 2;");
    assert_eq!(cleaned, "SELECT 1; \nSELECT 2;");
}

#[test]
fn block_comment_removed_inline() {
    let cleaned = SqlExecutor::clean_sql("SELECT /* hidden */ 1;");
    assert_eq!(cleaned, "SELECT  1;");
}

#[test]
fn unterminated_block_comment_consumes_rest() {
    let cleaned = SqlExecutor::clean_sql("SELECT 1; /* never closed\nSELECT 2;");
    assert_eq!(cleaned, "SELECT 1; ");
}

#[test]
fn comment_free_text_is_unchanged() {
    let text = "SELECT a, b FROM t WHERE a > 1;\nSELECT 2;\n";
    assert_eq!(SqlExecutor::clean_sql(text), text);
}

#[test]
fn dashes_inside_block_comment_do_not_linger() {
    let cleaned = SqlExecutor::clean_sql("a /* -- not a line comment */ b");
    assert_eq!(cleaned, "a  b");
}
