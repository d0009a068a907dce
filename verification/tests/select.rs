use cdl_core::ast::AstRootNode;
use cdl_core::compile;
use cdl_core::lex::Lexer;
use cdl_core::parse::Parser;
use cdl_core::select::lex::{lex_selector, SelectorItem};
use cdl_core::select::parse::SelectorParser;
use cdl_core::select::{compile_selector, matches_selector, select_entity, select_field};

const TWO_WIDGETS: &str = "
widget kpi {
    label : \"Label\"
    labels : \"Labels\"
}

widget kpi2 {
    label : \"Label\"
    labels : \"Labels\"
}
";

const TWO_PAGES: &str = "
page {

    widget kpi {
        label : \"Label\"
        labels : \"Labels\"
    }
}

page {

    widget kpi {
        label : \"Label\"
        labels : \"Labels\"
    }
    widget kpi2 {
        label : \"Label\"
        labels : \"Labels\"
    }
    widget kpi3 #kpiid {
        label : \"Label\"
        labels : \"Labels\"
    }
}
";

fn parse(cdl: &str) -> AstRootNode {
    let lexer = Lexer::new(cdl.to_string());
    let lex_items = lexer.lex().unwrap();
    let parser = Parser::new(lex_items);
    parser.parse().unwrap()
}

#[test]
fn lex_selector_test() {
    let s = "main[subType].identifier";
    let selector = lex_selector(s).unwrap();
    assert_eq!(selector.len(), 6);
}

#[test]
fn lex_selector_test2() {
    let s = "main[subType].identifier > main";
    let selector = lex_selector(s).unwrap();
    assert_eq!(selector.len(), 8);
}

#[test]
fn parse_test() {
    let s = "main[subType].identifier";
    let tokens = lex_selector(s).unwrap();
    let parser = SelectorParser::new(tokens);

    let sel = parser.parse().unwrap();
    assert_eq!(sel.main_type.unwrap(), "main");
    assert_eq!(sel.sub_type.unwrap(), "subType");
    assert_eq!(sel.identifier.unwrap(), "identifier");
}

#[test]
fn parse_test_just_main() {
    let s = "main";
    let tokens = lex_selector(s).unwrap();
    let parser = SelectorParser::new(tokens);

    let sel = parser.parse().unwrap();
    assert_eq!(sel.main_type.unwrap(), "main");
    assert_eq!(sel.sub_type.is_none(), true);
    assert_eq!(sel.identifier.is_none(), true);
}

#[test]
fn parse_test_just_sub_type() {
    let s = "[subtype]";
    let tokens = lex_selector(s).unwrap();
    let parser = SelectorParser::new(tokens);

    let sel = parser.parse().unwrap();
    assert_eq!(sel.main_type.is_none(), true);
    assert_eq!(sel.sub_type.unwrap(), "subtype");
    assert_eq!(sel.identifier.is_none(), true);
}

#[test]
fn parse_test_just_identifier() {
    let s = ".identifier";
    let tokens = lex_selector(s).unwrap();
    let parser = SelectorParser::new(tokens);

    let sel = parser.parse().unwrap();
    assert_eq!(sel.main_type.is_none(), true);
    assert_eq!(sel.sub_type.is_none(), true);
    assert_eq!(sel.identifier.unwrap(), "identifier");
}

#[test]
fn parse_test_sub_and_identifier() {
    let s = "[sub].identifier";
    let tokens = lex_selector(s).unwrap();
    let parser = SelectorParser::new(tokens);
    let sel = parser.parse().unwrap();
    assert_eq!(sel.main_type.is_none(), true);
    assert_eq!(sel.sub_type.unwrap(), "sub");
    assert_eq!(sel.identifier.unwrap(), "identifier");
}

#[test]
fn parse_test_main_and_identifier() {
    let s = "main.identifier";
    let tokens = lex_selector(s).unwrap();
    let parser = SelectorParser::new(tokens);
    let sel = parser.parse().unwrap();
    assert_eq!(sel.main_type.unwrap(), "main");
    assert_eq!(sel.sub_type.is_none(), true);
    assert_eq!(sel.identifier.unwrap(), "identifier");
}

#[test]
fn select_select_entity_simple() {
    let root = parse(TWO_WIDGETS);

    let result = select_entity(&root, "widget[kpi]").unwrap();
    assert_eq!(result.len(), 1);
}

#[test]
fn select_select_entity_simple2() {
    let root = parse(TWO_PAGES);

    assert_eq!(select_entity(&root, "widget[kpi]").unwrap().len(), 2);
    assert_eq!(select_entity(&root, "widget[kpi2]").unwrap().len(), 1);
    assert_eq!(select_entity(&root, "widget").unwrap().len(), 4);
    assert_eq!(select_entity(&root, "widget.kpiid").unwrap().len(), 1);
}

#[test]
fn select_select_field_simple() {
    let root = parse(TWO_PAGES);

    assert_eq!(select_field(&root, ".label").unwrap().len(), 4);
}

#[test]
fn mod_select_entity_simple() {
    let root = parse(TWO_WIDGETS);

    let result = select_entity(&root, "widget[kpi]").unwrap();
    assert_eq!(result.len(), 1);
}

#[test]
fn mod_select_entity_simple2() {
    let root = parse(TWO_PAGES);

    assert_eq!(select_entity(&root, "widget[kpi]").unwrap().len(), 2);
    assert_eq!(select_entity(&root, "widget[kpi2]").unwrap().len(), 1);
    assert_eq!(select_entity(&root, "widget").unwrap().len(), 4);
    assert_eq!(select_entity(&root, "widget.kpiid").unwrap().len(), 1);
}

#[test]
fn select_nested_entity() {
    let root = parse(TWO_PAGES);

    assert_eq!(select_entity(&root, "page > widget").unwrap().len(), 4);
    assert_eq!(select_entity(&root, "page > widget[kpi]").unwrap().len(), 2);
    assert_eq!(select_entity(&root, "page > widget[kpi2]").unwrap().len(), 1);
}

#[test]
fn mod_select_field_simple() {
    let root = parse(TWO_PAGES);

    assert_eq!(select_field(&root, ".label").unwrap().len(), 4);
    assert_eq!(select_field(&root, "page > widget[kpi3] > .label").unwrap().len(), 1);
    assert_eq!(select_field(&root, "widget > .label").unwrap().len(), 4);
}

const DASHBOARD: &str = "widget kpi #data1 {
    type : nps
    vpath : t1:q1
    label : \"Top\"
}

page #overview {
    widget kpi #kpi1 {
        type : nps
        vpath : t1:q1
        label : \"First\"
    }
    widget kpi #kpi2 {
        type : nps
        vpath : t1:q1
        label : \"Second\"
    }

    widget account {
        type : nps
        vpath : t1:q1
        label : \"Third\"
    }
}
";

fn label_text(field: &cdl_core::ast::AstFieldNode) -> String {
    match &field.value {
        cdl_core::ast::Expr::String(node) => node.value.clone(),
        _ => panic!("a label is a string"),
    }
}

#[test]
fn select_widgets_under_a_page() {
    let root = compile(DASHBOARD.to_string()).unwrap();
    let found = select_entity(&root, "page > widget[kpi]").unwrap();
    assert_eq!(found.len(), 2);
    assert_eq!(found[0].header.identifier, Some("kpi1".to_string()));
    assert_eq!(found[1].header.identifier, Some("kpi2".to_string()));
    for entity in &found {
        assert_eq!(entity.header.main_type, "widget");
        assert_eq!(entity.header.sub_type, Some("kpi".to_string()));
    }
}

#[test]
fn select_labels_of_all_widgets() {
    let root = compile(DASHBOARD.to_string()).unwrap();
    let found = select_field(&root, "widget > .label").unwrap();
    assert_eq!(found.len(), 4);
    let labels: Vec<String> = found.iter().map(|f| label_text(f)).collect();
    assert_eq!(labels, vec!["Top", "First", "Second", "Third"]);
}

#[test]
fn select_field_by_name_finds_every_field_of_that_name() {
    let root = compile(DASHBOARD.to_string()).unwrap();
    let found = select_field(&root, ".vpath").unwrap();
    assert_eq!(found.len(), 4);
    for field in &found {
        assert_eq!(field.identifier, "vpath");
    }
    assert_eq!(select_field(&root, ".missing").unwrap().len(), 0);
}

#[test]
fn select_results_come_in_pre_order() {
    let cdl = "a #one {
    a #two {
        a #three {
        }
    }
    a #four {
    }
}
a #five {
}
";
    let root = compile(cdl.to_string()).unwrap();
    let found = select_entity(&root, "a").unwrap();
    let ids: Vec<String> = found.iter().map(|e| e.header.identifier.clone().unwrap()).collect();
    assert_eq!(ids, vec!["one", "two", "three", "four", "five"]);
}

#[test]
fn select_step_needs_an_entity_around_not_the_entity_itself() {
    let cdl = "a #one {
    a #two {
        a #three {
        }
    }
    a #four {
    }
}
a #five {
}
";
    let root = compile(cdl.to_string()).unwrap();
    let found = select_entity(&root, "a > a").unwrap();
    let ids: Vec<String> = found.iter().map(|e| e.header.identifier.clone().unwrap()).collect();
    assert_eq!(ids, vec!["two", "three", "four"]);
    let found = select_entity(&root, "a > a > a").unwrap();
    let ids: Vec<String> = found.iter().map(|e| e.header.identifier.clone().unwrap()).collect();
    assert_eq!(ids, vec!["three"]);
    assert_eq!(select_entity(&root, "a > a > a > a").unwrap().len(), 0);
}

#[test]
fn select_each_entity_once() {
    let cdl = "page {
    page {
        widget kpi {
            label : \"x\"
        }
    }
}
";
    let root = compile(cdl.to_string()).unwrap();
    assert_eq!(select_entity(&root, "page > widget").unwrap().len(), 1);
    assert_eq!(select_field(&root, "page > .label").unwrap().len(), 1);
    assert_eq!(select_field(&root, "page > page > .label").unwrap().len(), 1);
    assert_eq!(select_field(&root, "page > page > page > .label").unwrap().len(), 0);
}

#[test]
fn select_descendant_is_not_only_a_child() {
    let cdl = "page {
    section {
        widget kpi {
            label : \"x\"
        }
    }
}
";
    let root = compile(cdl.to_string()).unwrap();
    assert_eq!(select_entity(&root, "page > widget").unwrap().len(), 1);
    assert_eq!(select_entity(&root, "section > page").unwrap().len(), 0);
    assert_eq!(select_entity(&root, "widget > page").unwrap().len(), 0);
}

#[test]
fn select_empty_step_takes_every_entity() {
    let root = parse(TWO_PAGES);
    assert_eq!(select_entity(&root, "").unwrap().len(), 6);
    assert_eq!(select_entity(&root, " > widget").unwrap().len(), 4);
    assert_eq!(select_entity(&root, "page > ").unwrap().len(), 4);
}

#[test]
fn select_field_without_a_name_finds_nothing() {
    let root = parse(TWO_PAGES);
    assert_eq!(select_field(&root, "widget").unwrap().len(), 0);
    assert_eq!(select_field(&root, "").unwrap().len(), 0);
}

#[test]
fn select_sub_type_and_identifier_need_the_part_to_be_there() {
    let root = parse(TWO_PAGES);
    assert_eq!(select_entity(&root, "[kpi]").unwrap().len(), 2);
    assert_eq!(select_entity(&root, "page[kpi]").unwrap().len(), 0);
    assert_eq!(select_entity(&root, ".kpiid").unwrap().len(), 1);
    assert_eq!(select_entity(&root, "page.kpiid").unwrap().len(), 0);
    assert_eq!(select_entity(&root, "widget[kpi3].kpiid").unwrap().len(), 1);
    assert_eq!(select_entity(&root, "widget[kpi2].kpiid").unwrap().len(), 0);
}

#[test]
fn selector_tokens() {
    let tokens = lex_selector("main[sub].id > _x1").unwrap();
    assert_eq!(
        tokens,
        vec![
            SelectorItem::Identifier("main".to_string()),
            SelectorItem::OpenSquare,
            SelectorItem::Identifier("sub".to_string()),
            SelectorItem::CloseSquare,
            SelectorItem::Dot,
            SelectorItem::Identifier("id".to_string()),
            SelectorItem::Arrow,
            SelectorItem::Identifier("_x1".to_string()),
        ]
    );
    assert_eq!(lex_selector("   ").unwrap().len(), 0);
}

#[test]
fn selector_chain_in_source_order() {
    let selector = compile_selector("page > widget[kpi] > .label").unwrap();
    assert_eq!(selector.main_type, Some("page".to_string()));
    let second = selector.child.unwrap();
    assert_eq!(second.main_type, Some("widget".to_string()));
    assert_eq!(second.sub_type, Some("kpi".to_string()));
    let third = second.child.unwrap();
    assert_eq!(third.main_type, None);
    assert_eq!(third.identifier, Some("label".to_string()));
    assert!(third.child.is_none());
}

#[test]
fn selector_errors() {
    assert_eq!(lex_selector("main$").unwrap_err(), "Unknown character $");
    assert_eq!(
        compile_selector("main[").unwrap_err(),
        "Expected an identifier inside square brackets"
    );
    assert_eq!(
        compile_selector("main[]").unwrap_err(),
        "Expected an identifier inside square brackets"
    );
    assert_eq!(compile_selector("main[sub").unwrap_err(), "Expected ']' after the sub type");
    assert_eq!(compile_selector("main[sub.x]").unwrap_err(), "Expected ']' after the sub type");
    assert_eq!(compile_selector("main.").unwrap_err(), "Expected an identifier after '.'");
    assert_eq!(compile_selector("main.[x]").unwrap_err(), "Expected an identifier after '.'");
    assert_eq!(compile_selector("main other").unwrap_err(), "Expected '>' between two steps");
    assert_eq!(compile_selector("main.a[b]").unwrap_err(), "Expected '>' between two steps");
    assert_eq!(compile_selector("main ]").unwrap_err(), "Expected '>' between two steps");
    let root = parse(TWO_WIDGETS);
    assert_eq!(select_entity(&root, "widget[").unwrap_err(), "Expected an identifier inside square brackets");
    assert_eq!(select_field(&root, "widget > .").unwrap_err(), "Expected an identifier after '.'");
    assert_eq!(select_field(&root, "wid?get").unwrap_err(), "Unknown character ?");
}

#[test]
fn matches_selector_compares_each_part_that_is_there() {
    let root = parse(TWO_PAGES);
    let widgets = select_entity(&root, "widget").unwrap();
    let header = &widgets[3].header;
    assert!(matches_selector(header, &compile_selector("").unwrap()));
    assert!(matches_selector(header, &compile_selector("widget").unwrap()));
    assert!(matches_selector(header, &compile_selector("widget[kpi3]").unwrap()));
    assert!(matches_selector(header, &compile_selector("widget[kpi3].kpiid").unwrap()));
    assert!(matches_selector(header, &compile_selector(".kpiid").unwrap()));
    assert!(!matches_selector(header, &compile_selector("page").unwrap()));
    assert!(!matches_selector(header, &compile_selector("widget[kpi]").unwrap()));
    assert!(!matches_selector(header, &compile_selector("widget.other").unwrap()));
    let plain = &widgets[0].header;
    assert!(!matches_selector(plain, &compile_selector(".kpiid").unwrap()));
}
