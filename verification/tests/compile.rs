use cdl_core::ast::{AstEntityNode, Expr};
use cdl_core::lex::{LexItem, Lexer};
use cdl_core::parse::Parser;
use cdl_core::{compile, print};

fn tokens(text: &str) -> Vec<LexItem> {
    Lexer::new(text.to_string()).lex().unwrap()
}

fn lex_error(text: &str) -> String {
    Lexer::new(text.to_string()).lex().unwrap_err()
}

fn ident(text: &str) -> LexItem {
    LexItem::Identifier(text.to_string())
}

fn number(text: &str) -> LexItem {
    LexItem::Number { real_text: text.to_string() }
}

fn only_entity(text: &str) -> AstEntityNode {
    let mut root = compile(text.to_string()).unwrap();
    assert_eq!(root.children.len(), 1);
    root.children.pop().unwrap()
}

fn expr_of(source: &str) -> Expr {
    let text = format!("e {{\n    x : {}\n}}\n", source);
    let mut entity = only_entity(&text);
    assert_eq!(entity.body.fields.len(), 1);
    entity.body.fields.pop().unwrap().value
}

fn shape(e: &Expr) -> String {
    match e {
        Expr::String(n) => format!("\"{}\"", n.value),
        Expr::Identifier(n) => n.value.clone(),
        Expr::Number(n) => n.text_rep.clone(),
        Expr::Function(n) => {
            let args: Vec<String> = n.argument_list.iter().map(shape).collect();
            format!("{}({})", n.identifier, args.join(","))
        }
        Expr::VPath(n) => format!(
            "{}:{}",
            n.table.clone().unwrap_or_default(),
            n.field.clone().unwrap_or_default()
        ),
        Expr::Operator(n) => {
            format!("({} {} {})", shape(&n.left_side), n.operator, shape(&n.right_side))
        }
        Expr::UnaryOperator(n) => format!("({}{})", n.operator, shape(&n.expr)),
    }
}

fn error_of(text: &str) -> String {
    compile(text.to_string()).unwrap_err()
}

#[test]
fn lex_every_kind_of_token() {
    assert_eq!(
        tokens("widget kpi #id @default.x {\n a_1 : f(1.5, \"s t\") + -2 * 3 / x\n}"),
        vec![
            ident("widget"),
            ident("kpi"),
            LexItem::Hash,
            ident("id"),
            LexItem::Reference("default.x".to_string()),
            LexItem::OpenBracket,
            LexItem::EOL,
            ident("a_1"),
            LexItem::Colon,
            ident("f"),
            LexItem::OpenPar,
            number("1.5"),
            LexItem::Comma,
            LexItem::String("s t".to_string()),
            LexItem::ClosePar,
            LexItem::Plus,
            LexItem::Minus,
            number("2"),
            LexItem::Mul,
            number("3"),
            LexItem::Div,
            ident("x"),
            LexItem::EOL,
            LexItem::CloseBracket,
        ]
    );
}

#[test]
fn lex_empty_text_has_no_tokens() {
    assert_eq!(tokens(""), vec![]);
    assert_eq!(tokens("    "), vec![]);
}

#[test]
fn lex_number_keeps_its_spelling() {
    assert_eq!(tokens("1234.001000"), vec![number("1234.001000")]);
    assert_eq!(tokens("007"), vec![number("007")]);
    assert_eq!(tokens("1."), vec![number("1.")]);
    assert_eq!(tokens("1x"), vec![number("1"), ident("x")]);
}

#[test]
fn lex_number_with_two_dots_is_an_error() {
    assert_eq!(lex_error("a : 1.2.3"), "Malformed number 1.2.3");
    assert_eq!(lex_error("1.."), "Malformed number 1..");
}

#[test]
fn lex_unknown_character_is_an_error() {
    assert_eq!(lex_error("widget $"), "Unknown character $");
    assert_eq!(lex_error("a\tb"), "Unknown character \t");
    assert_eq!(lex_error(".5"), "Unknown character .");
    assert_eq!(lex_error("a [ b"), "Unknown character [");
}

#[test]
fn lex_reference_may_be_empty() {
    assert_eq!(tokens("@"), vec![LexItem::Reference(String::new())]);
    assert_eq!(tokens("@ x"), vec![LexItem::Reference(String::new()), ident("x")]);
    assert_eq!(tokens("@a.b_1{"), vec![LexItem::Reference("a.b_1".to_string()), LexItem::OpenBracket]);
}

#[test]
fn lex_string_runs_to_the_next_quote() {
    assert_eq!(tokens("\"a $ \n b\"x"), vec![LexItem::String("a $ \n b".to_string()), ident("x")]);
    assert_eq!(tokens("\"\""), vec![LexItem::String(String::new())]);
    assert_eq!(tokens("\"open"), vec![LexItem::String("open".to_string())]);
    assert_eq!(tokens("\""), vec![LexItem::String(String::new())]);
}

#[test]
fn lex_identifier_characters() {
    assert_eq!(tokens("_a9Z b"), vec![ident("_a9Z"), ident("b")]);
    assert_eq!(tokens("a#b"), vec![ident("a"), LexItem::Hash, ident("b")]);
}

#[test]
fn compile_entity_with_sub_type() {
    let entity = only_entity("widget kpi {\n    label : \"Label\"\n}");
    assert_eq!(entity.header.main_type, "widget");
    assert_eq!(entity.header.sub_type, Some("kpi".to_string()));
    assert_eq!(entity.header.identifier, None);
    assert_eq!(entity.header.reference, None);
    assert_eq!(entity.body.fields.len(), 1);
    assert_eq!(entity.body.children.len(), 0);
    assert_eq!(entity.body.fields[0].identifier, "label");
    match &entity.body.fields[0].value {
        Expr::String(node) => assert_eq!(node.value, "Label"),
        other => panic!("not a string: {:?}", other),
    }
}

#[test]
fn compile_entity_with_reference() {
    let entity = only_entity("widget kpi @default {\n    label : \"Label\"\n}");
    assert_eq!(entity.header.main_type, "widget");
    assert_eq!(entity.header.sub_type, Some("kpi".to_string()));
    assert_eq!(entity.header.identifier, None);
    assert_eq!(entity.header.reference, Some("default".to_string()));
}

#[test]
fn compile_entity_with_identifier_and_reference() {
    let entity = only_entity("widget kpi #id @default {\n    label : \"Label\"\n}");
    assert_eq!(entity.header.main_type, "widget");
    assert_eq!(entity.header.sub_type, Some("kpi".to_string()));
    assert_eq!(entity.header.identifier, Some("id".to_string()));
    assert_eq!(entity.header.reference, Some("default".to_string()));
}

#[test]
fn compile_entity_without_sub_type() {
    let entity = only_entity("widget   {\n    label : \"Label\"\n    labels : \"Labels\"\n}");
    assert_eq!(entity.header.main_type, "widget");
    assert_eq!(entity.header.sub_type, None);
    assert_eq!(entity.body.fields.len(), 2);
    assert_eq!(entity.body.fields[0].identifier, "label");
    assert_eq!(entity.body.fields[1].identifier, "labels");
}

#[test]
fn compile_header_parts_without_sub_type() {
    let entity = only_entity("page #overview {\n}\n");
    assert_eq!(entity.header.sub_type, None);
    assert_eq!(entity.header.identifier, Some("overview".to_string()));
    let entity = only_entity("page @base {\n}\n");
    assert_eq!(entity.header.sub_type, None);
    assert_eq!(entity.header.reference, Some("base".to_string()));
}

#[test]
fn compile_empty_text_is_an_empty_document() {
    assert_eq!(compile(String::new()).unwrap().children.len(), 0);
    assert_eq!(compile("\n\n  \n".to_string()).unwrap().children.len(), 0);
}

#[test]
fn compile_nested_entities_and_blank_lines() {
    let entity = only_entity("a {\n\n    x : 1\n\n    b c {\n        y : 2\n    }\n    z : 3\n    d {\n    }\n}\n");
    assert_eq!(entity.body.fields.len(), 2);
    assert_eq!(entity.body.fields[0].identifier, "x");
    assert_eq!(entity.body.fields[1].identifier, "z");
    assert_eq!(entity.body.children.len(), 2);
    assert_eq!(entity.body.children[0].header.main_type, "b");
    assert_eq!(entity.body.children[0].header.sub_type, Some("c".to_string()));
    assert_eq!(entity.body.children[0].body.fields[0].identifier, "y");
    assert_eq!(entity.body.children[1].header.main_type, "d");
}

#[test]
fn compile_expression_precedence() {
    assert_eq!(shape(&expr_of("1 + 2 * 3")), "(1 + (2 * 3))");
    assert_eq!(shape(&expr_of("1 * 2 + 3")), "((1 * 2) + 3)");
    assert_eq!(shape(&expr_of("1 - 2 - 3")), "((1 - 2) - 3)");
    assert_eq!(shape(&expr_of("8 / 4 / 2")), "((8 / 4) / 2)");
    assert_eq!(shape(&expr_of("1 + 2 - 3 + 4")), "(((1 + 2) - 3) + 4)");
    assert_eq!(shape(&expr_of("(1 + 2) * 3")), "((1 + 2) * 3)");
    assert_eq!(shape(&expr_of("1 + (2 + 3) + 4")), "((1 + (2 + 3)) + 4)");
    assert_eq!(shape(&expr_of("((7))")), "7");
}

#[test]
fn compile_unary_minus_takes_a_term() {
    assert_eq!(shape(&expr_of("-1")), "(-1)");
    assert_eq!(shape(&expr_of("1 * -1")), "(1 * (-1))");
    assert_eq!(shape(&expr_of("-1 * 2")), "(-(1 * 2))");
    assert_eq!(shape(&expr_of("-1 + 2")), "((-1) + 2)");
    assert_eq!(shape(&expr_of("1 - -2")), "(1 - (-2))");
    assert_eq!(shape(&expr_of("--a")), "(-(-a))");
    assert_eq!(shape(&expr_of("2 * -3 * 4")), "(2 * (-(3 * 4)))");
}

#[test]
fn compile_identifier_forms() {
    assert_eq!(shape(&expr_of("s1")), "s1");
    assert_eq!(shape(&expr_of("s1:q1")), "s1:q1");
    assert_eq!(shape(&expr_of("f()")), "f()");
    assert_eq!(shape(&expr_of("NPS(s1:q1, MAX(1 , 2 ,3))")), "NPS(s1:q1,MAX(1,2,3))");
    assert_eq!(shape(&expr_of("f(a + 1, -b) * \"s\"")), "(f((a + 1),(-b)) * \"s\")");
    match expr_of("t:f") {
        Expr::VPath(node) => {
            assert_eq!(node.table, Some("t".to_string()));
            assert_eq!(node.sub_table, None);
            assert_eq!(node.field, Some("f".to_string()));
            assert_eq!(node.sub_field, None);
        }
        other => panic!("not a path: {:?}", other),
    }
}

#[test]
fn compile_number_keeps_its_spelling() {
    match expr_of("1234.001000") {
        Expr::Number(node) => assert_eq!(node.text_rep, "1234.001000"),
        other => panic!("not a number: {:?}", other),
    }
}

#[test]
fn compile_reports_lexical_errors() {
    assert_eq!(error_of("widget kpi {\n    a : 1.2.3\n}\n"), "Malformed number 1.2.3");
    assert_eq!(error_of("widget ? {\n}\n"), "Unknown character ?");
}

#[test]
fn compile_reports_unexpected_tokens() {
    assert_eq!(error_of("{\n}\n"), "Expected an entity, found '{'");
    assert_eq!(error_of("1"), "Expected an entity, found number 1");
    assert_eq!(error_of("a #1 {\n}\n"), "Expected an identifier after '#', found number 1");
    assert_eq!(error_of("a b c {\n}\n"), "Expected '{', found identifier c");
    assert_eq!(error_of("a"), "Expected '{', found end of input");
    assert_eq!(error_of("a { x : 1\n}\n"), "Expected end of line, found identifier x");
    assert_eq!(error_of("a {\n"), "Expected a field, an entity or '}', found end of input");
    assert_eq!(error_of("a {\n    \"s\"\n}\n"), "Expected a field, an entity or '}', found string s");
    assert_eq!(error_of("a {\n} b"), "Expected end of line, found identifier b");
    assert_eq!(error_of("a {\n    x : \n}\n"), "Expected an expression, found end of line");
    assert_eq!(error_of("a {\n    x : 1 +\n}\n"), "Expected an expression, found end of line");
    assert_eq!(error_of("a {\n    x : 1 2\n}\n"), "Expected end of line, found number 2");
    assert_eq!(error_of("a {\n    x : (1 + 2\n}\n"), "Expected ')', found end of line");
    assert_eq!(error_of("a {\n    x : f(1 2)\n}\n"), "Expected ')', found number 2");
    assert_eq!(error_of("a {\n    x : f(1,)\n}\n"), "Expected an expression, found ')'");
    assert_eq!(error_of("a {\n    x : t:1\n}\n"), "Expected the field of a path, found number 1");
    assert_eq!(error_of("a {\n    x : @r\n}\n"), "Expected an expression, found reference r");
    assert_eq!(error_of("a {\n    b @r x {\n    }\n}\n"), "Expected '{', found identifier x");
}

#[test]
fn compile_reports_the_end_of_the_tokens_at_a_lookahead() {
    assert_eq!(error_of("a {\n    x"), "Trying to access token past end of stream");
    assert_eq!(error_of("a {\n    x : y"), "Trying to access token past end of stream");
}

#[test]
fn parser_reads_tokens_built_by_hand() {
    let items = vec![
        ident("a"),
        LexItem::OpenBracket,
        LexItem::EOL,
        ident("x"),
        LexItem::Colon,
        LexItem::Minus,
        number("1"),
        LexItem::EOL,
        LexItem::CloseBracket,
    ];
    let root = Parser::new(items).parse().unwrap();
    assert_eq!(print(root), "a {\n    x: -1\n}\n");
}

#[test]
fn print_puts_fields_before_children() {
    let text = "a {\n    b {\n    }\n    x : 1\n    c d #e @f.g {\n        y : t:q\n    }\n    z : \"s\"\n}\n";
    let root = compile(text.to_string()).unwrap();
    assert_eq!(
        print(root),
        "a {\n    x: 1\n    z: \"s\"\n    b {\n    }\n    c d #e @f.g {\n        y: t:q\n    }\n}\n"
    );
}

#[test]
fn print_indents_by_four_spaces_for_each_level() {
    let text = "a {\nb {\nc {\nx : 1\n}\n}\n}\n";
    let root = compile(text.to_string()).unwrap();
    assert_eq!(print(root), "a {\n    b {\n        c {\n            x: 1\n        }\n    }\n}\n");
}

#[test]
fn print_several_entities_and_nothing() {
    let root = compile("a {\n}\n\n\nb c {\n}".to_string()).unwrap();
    assert_eq!(print(root), "a {\n}\nb c {\n}\n");
    let root = compile(String::new()).unwrap();
    assert_eq!(print(root), "");
}

#[test]
fn print_drops_parentheses() {
    let root = compile("a {\n    x : (1 + 2) * 3\n    y : f( ) - (-(a))\n}\n".to_string()).unwrap();
    assert_eq!(print(root), "a {\n    x: 1 + 2 * 3\n    y: f() - -a\n}\n");
}

#[test]
fn print_then_compile_then_print_is_print() {
    let texts = [
        "widget kpi #id @default {\n    label : \"La bel\"\n    n : 12.50\n    e : (1 + 2) * -3 / f(a, b:c, g())\n    tile kpi @ {\n        type : -(-x)\n    }\n}\npage {\n}\n",
        "a {\n    b {\n    }\n    x : (1 - 2) - (3 - 4)\n}\n",
        "a #b {\n\n    s : \"two\nlines\"\n\n}",
    ];
    for text in texts {
        let once = print(compile(text.to_string()).unwrap());
        let twice = print(compile(once.clone()).unwrap());
        assert_eq!(once, twice);
    }
}
