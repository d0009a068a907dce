use cdl_core::ast::{
    AstEntityBodyNode, AstEntityHeaderNode, AstEntityNode, AstFieldNode, AstFunctionNode,
    AstIdentifierNode, AstNumberNode, AstOperatorNode, AstStringNode, AstUnaryOperatorNode,
    AstVPathNode, Expr,
};
use cdl_core::compile;
use cdl_core::grammar::Construct;
use cdl_core::lex::{
    count_occurrences, get_identifier, get_number, get_quoted_string, get_reference,
    punctuation_item, read_token, LexItem, Lexer,
};
use cdl_core::parse::{construct_text, describe};
use cdl_core::print::{
    create_indent, print, print_entity, print_entity_body, print_entity_header, print_expr,
    print_field,
};
use cdl_core::text::{
    char_in_class, char_is_digit, char_is_identifier_start, char_is_letter, push_text, scan_run,
    string_of, to_chars, CharClass,
};

fn chars(text: &str) -> Vec<char> {
    text.chars().collect()
}

fn number(text: &str) -> Expr {
    Expr::Number(Box::new(AstNumberNode::new(text.to_string())))
}

fn name(text: &str) -> Expr {
    Expr::Identifier(Box::new(AstIdentifierNode { value: text.to_string() }))
}

fn operation(operator: char, left_side: Expr, right_side: Expr) -> Expr {
    Expr::Operator(Box::new(AstOperatorNode { operator, left_side, right_side }))
}

#[test]
fn text_character_classes() {
    assert!(char_is_letter('a') && char_is_letter('z') && char_is_letter('A') && char_is_letter('Z'));
    assert!(!char_is_letter('_') && !char_is_letter('0') && !char_is_letter('é'));
    assert!(char_is_digit('0') && char_is_digit('9') && !char_is_digit('a') && !char_is_digit('.'));
    assert!(char_is_identifier_start('_') && char_is_identifier_start('q'));
    assert!(!char_is_identifier_start('1') && !char_is_identifier_start('.'));
    assert!(char_in_class(CharClass::Identifier, '7') && !char_in_class(CharClass::Identifier, '.'));
    assert!(char_in_class(CharClass::Number, '.') && !char_in_class(CharClass::Number, 'a'));
    assert!(char_in_class(CharClass::Reference, '.') && char_in_class(CharClass::Reference, '_'));
    assert!(!char_in_class(CharClass::Reference, '@'));
    assert!(char_in_class(CharClass::Quoted, '\n') && !char_in_class(CharClass::Quoted, '"'));
}

#[test]
fn text_chars_and_strings() {
    assert_eq!(to_chars("a é\n"), vec!['a', ' ', 'é', '\n']);
    assert_eq!(to_chars(""), Vec::<char>::new());
    let v = chars("hello");
    assert_eq!(string_of(&v, 1, 4), "ell");
    assert_eq!(string_of(&v, 2, 2), "");
    assert_eq!(string_of(&v, 0, 5), "hello");
    let mut s = String::from("ab");
    push_text(&mut s, "cd");
    assert_eq!(s, "abcd");
}

#[test]
fn text_scan_run_stops_where_the_class_ends() {
    let v = chars("ab1_ c");
    assert_eq!(scan_run(&v, 0, CharClass::Identifier), 4);
    assert_eq!(scan_run(&v, 4, CharClass::Identifier), 4);
    assert_eq!(scan_run(&v, 5, CharClass::Identifier), 6);
    assert_eq!(scan_run(&v, 6, CharClass::Identifier), 6);
    assert_eq!(scan_run(&chars("12.5.x"), 0, CharClass::Number), 5);
    assert_eq!(scan_run(&chars("ab\"c"), 0, CharClass::Quoted), 2);
}

#[test]
fn lex_scanners() {
    let v = chars("ab1 12.50x @r.s \"q t\" \"open");
    assert_eq!(get_identifier(&v, 0), ("ab1".to_string(), 3));
    assert_eq!(get_identifier(&v, 1), ("b1".to_string(), 3));
    assert_eq!(get_number(&v, 4), ("12.50".to_string(), 9));
    assert_eq!(get_reference(&v, 12), ("r.s".to_string(), 15));
    assert_eq!(get_reference(&v, 15), (String::new(), 15));
    assert_eq!(get_quoted_string(&v, 17), ("q t".to_string(), 21));
    assert_eq!(get_quoted_string(&v, 23), ("open".to_string(), 27));
    assert_eq!(get_quoted_string(&v, 27), (String::new(), 27));
}

#[test]
fn lex_count_occurrences() {
    assert_eq!(count_occurrences(&chars("1.2.3"), '.'), 2);
    assert_eq!(count_occurrences(&chars("123"), '.'), 0);
    assert_eq!(count_occurrences(&chars(""), '.'), 0);
    assert_eq!(count_occurrences(&chars("..."), '.'), 3);
}

#[test]
fn lex_punctuation() {
    assert_eq!(punctuation_item('{'), Some(LexItem::OpenBracket));
    assert_eq!(punctuation_item('}'), Some(LexItem::CloseBracket));
    assert_eq!(punctuation_item('('), Some(LexItem::OpenPar));
    assert_eq!(punctuation_item(')'), Some(LexItem::ClosePar));
    assert_eq!(punctuation_item(':'), Some(LexItem::Colon));
    assert_eq!(punctuation_item(','), Some(LexItem::Comma));
    assert_eq!(punctuation_item('+'), Some(LexItem::Plus));
    assert_eq!(punctuation_item('-'), Some(LexItem::Minus));
    assert_eq!(punctuation_item('*'), Some(LexItem::Mul));
    assert_eq!(punctuation_item('/'), Some(LexItem::Div));
    assert_eq!(punctuation_item('#'), Some(LexItem::Hash));
    assert_eq!(punctuation_item('\n'), Some(LexItem::EOL));
    assert_eq!(punctuation_item('.'), None);
    assert_eq!(punctuation_item(' '), None);
}

#[test]
fn lex_read_token() {
    let v = chars("ab 1.5\"s\"@r$");
    assert_eq!(read_token(&v, 0), Ok((Some(LexItem::Identifier("ab".to_string())), 2)));
    assert_eq!(read_token(&v, 2), Ok((None, 3)));
    assert_eq!(read_token(&v, 3), Ok((Some(LexItem::Number { real_text: "1.5".to_string() }), 6)));
    assert_eq!(read_token(&v, 6), Ok((Some(LexItem::String("s".to_string())), 9)));
    assert_eq!(read_token(&v, 9), Ok((Some(LexItem::Reference("r".to_string())), 11)));
    assert_eq!(read_token(&v, 11), Err("Unknown character $".to_string()));
    assert_eq!(read_token(&chars("1.2.3"), 0), Err("Malformed number 1.2.3".to_string()));
}

#[test]
fn lex_items_compare_by_kind_and_text() {
    assert_eq!(LexItem::Identifier("a".to_string()), LexItem::Identifier("a".to_string()));
    assert_ne!(LexItem::Identifier("a".to_string()), LexItem::Identifier("b".to_string()));
    assert_ne!(LexItem::Identifier("a".to_string()), LexItem::String("a".to_string()));
    assert_ne!(LexItem::Plus, LexItem::Minus);
    assert_eq!(LexItem::EOL, LexItem::EOL);
}

#[test]
fn parse_describes_tokens_and_constructs() {
    assert_eq!(describe(&LexItem::Identifier("a".to_string())), "identifier a");
    assert_eq!(describe(&LexItem::String("s".to_string())), "string s");
    assert_eq!(describe(&LexItem::Reference("r".to_string())), "reference r");
    assert_eq!(describe(&LexItem::Number { real_text: "1".to_string() }), "number 1");
    assert_eq!(describe(&LexItem::Colon), "':'");
    assert_eq!(describe(&LexItem::Comma), "','");
    assert_eq!(describe(&LexItem::OpenBracket), "'{'");
    assert_eq!(describe(&LexItem::CloseBracket), "'}'");
    assert_eq!(describe(&LexItem::OpenPar), "'('");
    assert_eq!(describe(&LexItem::ClosePar), "')'");
    assert_eq!(describe(&LexItem::Plus), "'+'");
    assert_eq!(describe(&LexItem::Minus), "'-'");
    assert_eq!(describe(&LexItem::Div), "'/'");
    assert_eq!(describe(&LexItem::Mul), "'*'");
    assert_eq!(describe(&LexItem::Hash), "'#'");
    assert_eq!(describe(&LexItem::EOL), "end of line");
    assert_eq!(construct_text(Construct::Entity), "an entity");
    assert_eq!(construct_text(Construct::MainType), "the main type of an entity");
    assert_eq!(construct_text(Construct::EntityIdentifier), "an identifier after '#'");
    assert_eq!(construct_text(Construct::BodyItem), "a field, an entity or '}'");
    assert_eq!(construct_text(Construct::FieldName), "a field name");
    assert_eq!(construct_text(Construct::Factor), "an expression");
    assert_eq!(construct_text(Construct::PathTable), "the table of a path");
    assert_eq!(construct_text(Construct::PathField), "the field of a path");
    assert_eq!(construct_text(Construct::FunctionName), "a function name");
}

#[test]
fn ast_new_nodes_are_empty() {
    let header = AstEntityHeaderNode::new();
    assert_eq!(header.main_type, "");
    assert_eq!(header.sub_type, None);
    assert_eq!(header.reference, None);
    assert_eq!(header.identifier, None);
    let body = AstEntityBodyNode::new();
    assert_eq!(body.fields.len(), 0);
    assert_eq!(body.children.len(), 0);
    let entity = AstEntityNode::new();
    assert_eq!(entity.header.main_type, "");
    assert_eq!(entity.body.fields.len(), 0);
    assert_eq!(AstNumberNode::new("1.50".to_string()).text_rep, "1.50");
}

#[test]
fn print_create_indent() {
    assert_eq!(create_indent(0), "");
    assert_eq!(create_indent(1), "    ");
    assert_eq!(create_indent(3), "            ");
}

#[test]
fn print_expr_of_each_kind() {
    assert_eq!(print_expr(&number("1.50")), "1.50");
    assert_eq!(print_expr(&name("abc")), "abc");
    let text = Expr::String(Box::new(AstStringNode { value: "a b".to_string() }));
    assert_eq!(print_expr(&text), "\"a b\"");
    assert_eq!(print_expr(&operation('/', number("1"), name("x"))), "1 / x");
    let nested = operation('*', operation('+', number("1"), number("2")), number("3"));
    assert_eq!(print_expr(&nested), "1 + 2 * 3");
    let negated =
        Expr::UnaryOperator(Box::new(AstUnaryOperatorNode { operator: '-', expr: name("x") }));
    assert_eq!(print_expr(&negated), "-x");
    let path = |table: Option<&str>, sub_table: Option<&str>, field: Option<&str>, sub_field: Option<&str>| {
        Expr::VPath(Box::new(AstVPathNode {
            table: table.map(str::to_string),
            sub_table: sub_table.map(str::to_string),
            field: field.map(str::to_string),
            sub_field: sub_field.map(str::to_string),
        }))
    };
    assert_eq!(print_expr(&path(Some("t"), None, Some("f"), None)), "t:f");
    assert_eq!(print_expr(&path(Some("t"), Some("s"), Some("f"), Some("g"))), "ts:fg");
    assert_eq!(print_expr(&path(None, None, None, None)), ":");
    let call = |args: Vec<Expr>| {
        Expr::Function(Box::new(AstFunctionNode {
            identifier: "f".to_string(),
            argument_list: args,
        }))
    };
    assert_eq!(print_expr(&call(vec![])), "f()");
    assert_eq!(print_expr(&call(vec![number("1")])), "f(1)");
    assert_eq!(print_expr(&call(vec![number("1"), name("a"), call(vec![])])), "f(1, a, f())");
}

#[test]
fn print_field_line() {
    let field = AstFieldNode { identifier: "x".to_string(), value: number("1") };
    assert_eq!(print_field(&field, ""), "x: 1\n");
    assert_eq!(print_field(&field, "    "), "    x: 1\n");
}

#[test]
fn print_header_parts() {
    let mut header = AstEntityHeaderNode::new();
    header.main_type = "widget".to_string();
    assert_eq!(print_entity_header(&header, ""), "widget ");
    header.reference = Some("r".to_string());
    assert_eq!(print_entity_header(&header, "  "), "  widget @r ");
    header.identifier = Some("i".to_string());
    assert_eq!(print_entity_header(&header, ""), "widget #i @r ");
    header.sub_type = Some("kpi".to_string());
    assert_eq!(print_entity_header(&header, ""), "widget kpi #i @r ");
    header.reference = None;
    header.identifier = None;
    assert_eq!(print_entity_header(&header, ""), "widget kpi ");
}

#[test]
fn print_body_and_entity() {
    let mut entity = AstEntityNode::new();
    entity.header.main_type = "a".to_string();
    assert_eq!(print_entity_body(&entity.body, ""), "{\n}\n");
    assert_eq!(print_entity(&entity, ""), "a {\n}\n");
    entity.body.fields.push(AstFieldNode { identifier: "x".to_string(), value: number("1") });
    let mut child = AstEntityNode::new();
    child.header.main_type = "b".to_string();
    child.body.fields.push(AstFieldNode { identifier: "y".to_string(), value: number("2") });
    entity.body.children.push(child);
    assert_eq!(print_entity_body(&entity.body, "  "), "{\n      x: 1\n      b {\n          y: 2\n      }\n  }\n");
    assert_eq!(print_entity(&entity, ""), "a {\n    x: 1\n    b {\n        y: 2\n    }\n}\n");
}

#[test]
fn printed_text_has_a_tokenisation() {
    let text = "widget kpi #id @default.x {\n    a : f(1.5, \"s, (t\") + -2 * t:q / x\n    b {\n    }\n}\n";
    let printed = print(compile(text.to_string()).unwrap());
    let tokens = Lexer::new(printed.clone()).lex().unwrap();
    assert_eq!(tokens.len(), 32);
    assert_eq!(
        printed,
        "widget kpi #id @default.x {\n    a: f(1.5, \"s, (t\") + -2 * t:q / x\n    b {\n    }\n}\n"
    );
}
