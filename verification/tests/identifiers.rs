//! Identifiers and text.

use prql_sql::ast::{Dialect, Quote};
use prql_sql::ident::{translate_column, translate_ident, translate_ident_part};
use prql_sql::sql::Ident;
use prql_sql::text::{int_to_text, replace_all, split_dots};

fn plain(value: &str) -> Ident {
    Ident {
        value: value.to_string(),
        quote_style: None,
    }
}

fn quoted(value: &str, quote: Quote) -> Ident {
    Ident {
        value: value.to_string(),
        quote_style: Some(quote),
    }
}

#[test]
fn quoting_of_parts() {
    let h = Dialect::Generic.handler();
    for name in ["a", "_id", "$1", "first_name2", "*"] {
        assert_eq!(translate_ident_part(name.to_string(), &h), plain(name));
    }
    for name in ["", "A", "1st", "first name", "firstName", "a-b", "**", "\u{e9}t\u{e9}"] {
        assert_eq!(
            translate_ident_part(name.to_string(), &h),
            quoted(name, Quote::Double)
        );
    }
    let mysql = Dialect::MySql.handler();
    assert_eq!(
        translate_ident_part("Name".to_string(), &mysql),
        quoted("Name", Quote::Backtick)
    );
}

#[test]
fn identifiers_are_split_at_dots() {
    let h = Dialect::Generic.handler();
    assert_eq!(
        translate_ident("employees.First Name".to_string(), &h),
        vec![plain("employees"), quoted("First Name", Quote::Double)]
    );
    assert_eq!(
        translate_ident("a..b".to_string(), &h),
        vec![plain("a"), quoted("", Quote::Double), plain("b")]
    );
}

#[test]
fn templates_are_left_alone() {
    for dialect in [Dialect::Generic, Dialect::BigQuery] {
        let h = dialect.handler();
        let name = "{{ ref('a.b.c') }}";
        assert_eq!(translate_ident(name.to_string(), &h), vec![plain(name)]);
    }
}

#[test]
fn bigquery_quotes_whole_names() {
    let h = Dialect::BigQuery.handler();
    assert_eq!(
        translate_ident("project.data.table".to_string(), &h),
        vec![quoted("project.data.table", Quote::Backtick)]
    );
    assert_eq!(
        translate_ident("Data.Table".to_string(), &h),
        vec![plain("Data.Table")]
    );
    assert_eq!(
        translate_column("project.data.table.id".to_string(), &h),
        vec![quoted("project.data.table", Quote::Backtick), plain("id")]
    );
    assert_eq!(translate_column("id".to_string(), &h), vec![plain("id")]);
    assert_eq!(
        translate_column("t.id".to_string(), &h),
        vec![plain("t"), plain("id")]
    );
}

#[test]
fn columns_of_other_dialects_are_identifiers() {
    let h = Dialect::PostgreSql.handler();
    assert_eq!(
        translate_column("t.Id".to_string(), &h),
        vec![plain("t"), quoted("Id", Quote::Double)]
    );
}

#[test]
fn parts_joined_by_dots_are_the_text() {
    for text in ["", ".", "a", "a.b", ".a..b.", "no dots here"] {
        assert_eq!(split_dots(text).join("."), text);
    }
}

#[test]
fn replacing_goes_from_left_to_right() {
    assert_eq!(replace_all("{ { x } }", "{ {", "{{"), "{{ x } }");
    assert_eq!(replace_all("aaaa", "aa", "b"), "bb");
    assert_eq!(replace_all("aaa", "aa", "b"), "ba");
    assert_eq!(replace_all("abc", "x", "y"), "abc");
    assert_eq!(replace_all("{ { {", "{ {", "{{"), "{{ {");
}

#[test]
fn integers_as_text() {
    assert_eq!(int_to_text(0), "0");
    assert_eq!(int_to_text(1020), "1020");
    assert_eq!(int_to_text(-7), "-7");
    assert_eq!(int_to_text(i64::MAX), "9223372036854775807");
    assert_eq!(int_to_text(i64::MIN), "-9223372036854775808");
}

#[test]
fn names_are_never_altered() {
    for dialect in [Dialect::Generic, Dialect::BigQuery, Dialect::MySql] {
        let h = dialect.handler();
        for name in ["a", "a.b", "A.b c.d", "{{ x.y }}", "p.d.t.c", ""] {
            let join = |idents: Vec<Ident>| {
                let values: Vec<String> = idents.into_iter().map(|i| i.value).collect();
                values.join(".")
            };
            assert_eq!(join(translate_ident(name.to_string(), &h)), name);
            assert_eq!(join(translate_column(name.to_string(), &h)), name);
        }
    }
}

#[test]
fn tables_are_read_by_their_names() {
    for dialect in [Dialect::Generic, Dialect::BigQuery, Dialect::MySql] {
        let h = dialect.handler();
        for name in ["table_0", "table_120", "newest"] {
            assert_eq!(translate_ident_part(name.to_string(), &h), plain(name));
            assert_eq!(translate_ident(name.to_string(), &h), vec![plain(name)]);
        }
    }
    let h = Dialect::Generic.handler();
    assert_eq!(
        translate_ident("The Newest".to_string(), &h),
        vec![translate_ident_part("The Newest".to_string(), &h)]
    );
}
