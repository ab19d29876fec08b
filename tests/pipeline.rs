use safe_sql::php::{
    escape, generate_async_transaction, generate_method, generate_return_type, is_insert_text,
};
use safe_sql::php_lib::{Class, ClassMember, Function, Param, Visibility};
use safe_sql::pipeline::{generate, generate_code, GenerateError};
use safe_sql::sqlfile::{lex, lex_2, lex_sql, SqlToken, Thing};
use std::collections::VecDeque;

fn tokens(sql: &str) -> Vec<SqlToken> {
    lex_sql(sql.to_string())
}

fn collect(file: &str, text: &str) -> Vec<(String, String)> {
    lex_2(file.to_string(), lex(text.to_string()).unwrap(), Vec::new()).unwrap()
}

#[test]
fn splitter_separates_comments_fragments_and_ends() {
    let v = lex("-- #a\nSELECT 1;".to_string()).unwrap();
    assert_eq!(v.len(), 3);
    assert!(matches!(&v[0], Thing::Comment(t) if t == " #a"));
    assert!(matches!(&v[1], Thing::Sql(t) if t == "SELECT 1"));
    assert!(matches!(&v[2], Thing::EndOfQuery()));
}

#[test]
fn splitter_keeps_semicolons_and_dashes_inside_quotes() {
    let v = lex("-- #a\nSELECT ';--x';".to_string()).unwrap();
    assert_eq!(v.len(), 3);
    assert!(matches!(&v[1], Thing::Sql(t) if t == "SELECT ';--x'"));
}

#[test]
fn splitter_drops_control_characters_outside_quotes() {
    let v = lex("-- #a\nSELECT\t1\r\n,2;".to_string()).unwrap();
    assert!(matches!(&v[1], Thing::Sql(t) if t == "SELECT1,2"));
}

#[test]
fn splitter_accepts_text_with_only_comments() {
    let v = lex("-- nothing here\n".to_string()).unwrap();
    assert_eq!(v.len(), 1);
    assert!(lex(String::new()).unwrap().is_empty());
}

#[test]
fn unterminated_file_is_a_syntax_error() {
    assert!(lex("-- #a\nSELECT 1;\n-- #b\nSELECT 2".to_string()).is_err());
    assert!(lex("-- #a\nSELECT 1".to_string()).is_err());
    assert!(lex("-- #a\nSELECT 'x;".to_string()).is_err());
}

#[test]
fn trailing_blanks_after_last_statement_are_accepted() {
    let v = lex("-- #a\nSELECT 1; ".to_string()).unwrap();
    assert_eq!(v.len(), 3);
    assert!(matches!(&v[2], Thing::EndOfQuery()));
}

#[test]
fn trailing_comment_after_last_statement_is_accepted() {
    assert!(lex("-- #a\nSELECT 1;\n-- the end".to_string()).is_ok());
}

#[test]
fn group_without_name_comment_is_a_format_error() {
    let segs = lex("SELECT 1;".to_string()).unwrap();
    assert!(lex_2("f".to_string(), segs, Vec::new()).is_err());
    let segs = lex("-- a note\nSELECT 1;".to_string()).unwrap();
    assert!(lex_2("f".to_string(), segs, Vec::new()).is_err());
}

#[test]
fn collector_names_queries_by_file_and_comment() {
    let m = collect("users", "-- #by_id\nSELECT * FROM u WHERE id=$id:int;\n-- #all\nSELECT * FROM u;\n");
    assert_eq!(m.len(), 2);
    assert_eq!(m[0], ("users_by_id".to_string(), "SELECT * FROM u WHERE id=$id:int".to_string()));
    assert_eq!(m[1], ("users_all".to_string(), "SELECT * FROM u".to_string()));
}

#[test]
fn collector_appends_groups_with_the_same_name() {
    let m = collect("f", "-- #q\nA;\n-- #q\nB;\n");
    assert_eq!(m, vec![("f_q".to_string(), "AB".to_string())]);
}

#[test]
fn collector_stops_at_an_empty_name() {
    let m = collect("f", "-- #q\nA;\n-- #\nB;\n-- #r\nC;");
    assert_eq!(m, vec![("f_q".to_string(), "A".to_string())]);
}

#[test]
fn collector_keeps_earlier_entries() {
    let base = vec![("g_x".to_string(), "X".to_string())];
    let m = lex_2("f".to_string(), lex("-- #q\nA;".to_string()).unwrap(), base).unwrap();
    assert_eq!(m.len(), 2);
    assert_eq!(m[0].0, "g_x");
    assert_eq!(m[1].0, "f_q");
}

#[test]
fn collector_accepts_an_empty_queue() {
    let m = lex_2("f".to_string(), VecDeque::new(), Vec::new()).unwrap();
    assert!(m.is_empty());
}

#[test]
fn tokenizer_reads_parameters_and_returns() {
    let t = tokens("SELECT name AS @name:string FROM u WHERE id = $id:int");
    assert_eq!(t.len(), 5);
    assert!(matches!(&t[0], SqlToken::Sql(s) if s == "SELECT name AS "));
    assert!(matches!(&t[1], SqlToken::Return(n, ty) if n == "name" && ty == "string"));
    assert!(matches!(&t[2], SqlToken::Sql(s) if s == " FROM u WHERE id = "));
    assert!(matches!(&t[3], SqlToken::Variable(n, ty) if n == "id" && ty == "int"));
    assert!(matches!(&t[4], SqlToken::Sql(s) if s.is_empty()));
}

#[test]
fn tokenizer_takes_nullable_types_and_closes_on_punctuation() {
    let t = tokens("f($a:?int)");
    assert!(matches!(&t[1], SqlToken::Variable(n, ty) if n == "a" && ty == "?int"));
    assert!(matches!(&t[2], SqlToken::Sql(s) if s == ")"));
}

#[test]
fn tokenizer_ignores_markers_inside_quotes() {
    let t = tokens("SELECT '$x:int', \"@y:int\"");
    assert_eq!(t.len(), 1);
    assert!(matches!(&t[0], SqlToken::Sql(s) if s == "SELECT '$x:int', \"@y:int\""));
}

#[test]
fn tokenizer_round_trip_with_markers() {
    let text = "UPDATE t SET a = $a:int, b = 'x' WHERE c = @c:string AND d = $a:int";
    let t = tokens(text);
    let mut back = String::new();
    let mut marked = String::new();
    for tok in &t {
        match tok {
            SqlToken::Sql(s) => {
                back.push_str(s);
                marked.push_str(s);
            }
            SqlToken::Variable(n, ty) => {
                back.push_str(&format!("${}:{}", n, ty));
                marked.push('?');
            }
            SqlToken::Return(n, ty) => {
                back.push_str(&format!("@{}:{}", n, ty));
                marked.push('?');
            }
        }
    }
    assert_eq!(back, text);
    assert_eq!(marked, "UPDATE t SET a = ?, b = 'x' WHERE c = ? AND d = ?");
}

#[test]
fn tokenizer_keeps_an_unfinished_placeholder_as_text() {
    let t = tokens("SELECT $x FROM t");
    assert_eq!(t.len(), 2);
    assert!(matches!(&t[0], SqlToken::Sql(s) if s == "SELECT "));
    assert!(matches!(&t[1], SqlToken::Sql(s) if s == "$x FROM t"));
    let t = tokens("WHERE a = @a:");
    assert!(matches!(&t[1], SqlToken::Sql(s) if s == "@a:"));
}

#[test]
fn tokenizer_keeps_a_placeholder_without_type_as_text() {
    let t = tokens("($x:) OR y");
    assert_eq!(t.len(), 2);
    assert!(matches!(&t[0], SqlToken::Sql(s) if s == "("));
    assert!(matches!(&t[1], SqlToken::Sql(s) if s == "$x:) OR y"));
    assert!(!t.iter().any(|k| matches!(k, SqlToken::Variable(_, _))));
}

#[test]
fn escape_uses_two_character_escapes() {
    assert_eq!(escape("a\"b\\c\nd".to_string()), "a\\\"b\\\\c\\nd");
    assert_eq!(escape("\t\r\x1b\x0b\x0c$".to_string()), "\\t\\r\\e\\v\\f\\$");
    assert_eq!(escape("plain é".to_string()), "plain é");
}

#[test]
fn string_literal_in_query_is_escaped_in_method() {
    let q = collect("f", "-- #q\nSELECT 'a\"b\\c\nd';");
    let f = generate_method(&q[0].0, &tokens(&q[0].1));
    assert_eq!(
        f.body[0],
        "$statement = $this->db->prepare(\"SELECT 'a\\\"b\\\\c\\nd'\");$statement->execute([]);return $statement->rowCount();"
    );
}

#[test]
fn repeated_parameter_is_declared_once_and_bound_twice() {
    let f = generate_method(&"q".to_string(), &tokens("SELECT * FROM t WHERE a = $id:int OR b = $id:int"));
    assert_eq!(f.params.len(), 1);
    assert_eq!(f.params[0].name, "id");
    assert_eq!(f.params[0].param_type, "int");
    assert!(f.body[0].contains("execute([$id,$id,])"));
    assert!(f.body[0].contains("WHERE a = ? OR b = ?"));
    assert_eq!(f.to_string(), format!("/** @return int */public function q(int $id) {{{}}}", f.body[0]));
}

#[test]
fn query_without_returns_has_no_row_class() {
    let t = tokens("DELETE FROM t WHERE id = $id:int");
    assert_eq!(generate_return_type(&"q".to_string(), &t), "");
    let f = generate_method(&"q".to_string(), &t);
    assert_eq!(f.comment, "/** @return int */");
    assert!(!f.body[0].contains("yield"));
}

#[test]
fn query_with_returns_has_row_class_and_yields() {
    let t = tokens("SELECT @id:int, @name:?string FROM t");
    assert_eq!(
        generate_return_type(&"q".to_string(), &t),
        "class q {public function __construct(public int $id,public ?string $name) {}}"
    );
    let f = generate_method(&"q".to_string(), &t);
    assert_eq!(f.comment, "/** @return q[]|\\Generator */");
    assert_eq!(
        f.body[0],
        "$statement = $this->db->prepare(\"SELECT id, name FROM t\"); $statement->execute([]); while ($res = $statement->fetch(\\PDO::FETCH_NUM)) { yield new q(...$res);}"
    );
}

#[test]
fn insert_returns_generated_identifier() {
    let q = collect("f", "-- #create\nINSERT INTO t VALUES ($x:int);");
    let f = generate_method(&"create".to_string(), &tokens(&q[0].1));
    assert_eq!(
        f.body[0],
        "$statement = $this->db->prepare(\"INSERT INTO t VALUES (?)\");$statement->execute([$x,]);return $this->db->lastInsertId();"
    );
}

#[test]
fn update_returns_affected_row_count() {
    let q = collect("f", "-- #update\nUPDATE t SET a=$x:int;");
    let f = generate_method(&"update".to_string(), &tokens(&q[0].1));
    assert!(f.body[0].ends_with("return $statement->rowCount();"));
    assert!(!f.body[0].contains("lastInsertId"));
}

#[test]
fn insert_detection_ignores_case() {
    assert!(is_insert_text("insert into t"));
    assert!(!is_insert_text("inser"));
    assert!(!is_insert_text(" insert"));
    let f = generate_method(&"c".to_string(), &tokens("InSeRt INTO t VALUES (1)"));
    assert!(f.body[0].ends_with("lastInsertId();"));
}

#[test]
fn transaction_class_captures_parameters() {
    let c = generate_async_transaction(&"q".to_string(), &tokens("UPDATE t SET a=$a:int WHERE b=$b:string OR c=$a:?int"));
    assert_eq!(
        c.to_string(),
        "class AT_q extends AsyncTransaction {public function __construct(private ?int $a,private string $b) {}public function run(Transaction $t) {$out = $t->q($this->a,$this->b,);return $out;}}"
    );
}

#[test]
fn transaction_class_collects_rows() {
    let c = generate_async_transaction(&"q".to_string(), &tokens("SELECT @a:int"));
    let text = c.to_string();
    assert!(text.starts_with("class AT_q extends AsyncTransaction {public function __construct() {}public function run(Transaction $t) {$out = $t->q();"));
    assert!(text.contains("return $rv;"));
}

#[test]
fn class_renders_abstract_base_and_interfaces() {
    let f = Function {
        name: "go".to_string(),
        params: vec![Param { name: "x".to_string(), param_type: "int".to_string(), visibility: None }],
        body: vec!["return 1;".to_string()],
        visibility: Some(Visibility::Protected()),
        comment: "/** doc */".to_string(),
    };
    let c = Class {
        name: "A".to_string(),
        extends: Some("B".to_string()),
        implements: vec!["I".to_string(), "J".to_string()],
        is_abstract: true,
        members: vec![ClassMember::Function(f)],
        comment: String::new(),
    };
    assert_eq!(
        c.to_string(),
        "abstract class A extends B implements I, J {/** doc */protected function go(int $x) {return 1;}}"
    );
}

#[test]
fn function_joins_parameters_with_commas() {
    let f = Function {
        name: "g".to_string(),
        params: vec![
            Param { name: "a".to_string(), param_type: "int".to_string(), visibility: None },
            Param { name: "b".to_string(), param_type: "string".to_string(), visibility: Some(Visibility::Private()) },
        ],
        body: vec![],
        visibility: None,
        comment: String::new(),
    };
    assert_eq!(f.to_string(), "function g(int $a,private string $b) {}");
}

#[test]
fn visibility_keywords() {
    assert_eq!(Visibility::Public().to_string(), "public ");
    assert_eq!(Visibility::Private().to_string(), "private ");
    assert_eq!(Visibility::Protected().to_string(), "protected ");
}

#[test]
fn pipeline_output_is_repeatable() {
    let text = "-- #a\nSELECT @x:int FROM t WHERE y=$y:int;\n-- #b\nINSERT INTO t VALUES ($v:string);\n";
    let run = || {
        let m = collect("f", text);
        let mut out = String::new();
        for (name, sql) in &m {
            let t = tokens(sql);
            out.push_str(&generate_method(name, &t).to_string());
            out.push_str(&generate_return_type(name, &t));
            out.push_str(&generate_async_transaction(name, &t).to_string());
        }
        out
    };
    assert_eq!(run(), run());
}

#[test]
fn whole_run_generates_methods_then_classes() {
    let files = vec![("f".to_string(), "-- #a\nSELECT @x:int FROM t WHERE y=$y:int;\n".to_string())];
    let out = generate(&files).unwrap();
    let method = "/** @return f_a[]|\\Generator */public function f_a(int $y) {$statement = $this->db->prepare(\"SELECT x FROM t WHERE y=?\"); $statement->execute([$y,]); while ($res = $statement->fetch(\\PDO::FETCH_NUM)) { yield new f_a(...$res);}}";
    assert!(out.starts_with(&format!("{}}}class f_a {{public function __construct(public int $x) {{}}}}class AT_f_a extends AsyncTransaction {{", method)));
    assert_eq!(generate(&files).unwrap(), out);
}

#[test]
fn whole_run_reports_failures() {
    let bad = vec![("f".to_string(), "-- #a\nSELECT 1".to_string())];
    assert!(matches!(generate(&bad), Err(GenerateError::Syntax { file }) if file == "f"));
    let bad = vec![("g".to_string(), "SELECT 1;".to_string())];
    assert!(matches!(generate(&bad), Err(GenerateError::Format { file }) if file == "g"));
    let empty = vec![("f_a".to_string(), String::new())];
    assert!(matches!(generate_code(&empty), Err(GenerateError::EmptyQuery { name }) if name == "f_a"));
}
