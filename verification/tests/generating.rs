use rlox::ast_generator::{
    ast_vals, generate_enum, generate_new, generate_structs, generate_traits,
    generate_traits_named, parse_class,
    parse_classes, try_parse_classes,
};

#[test]
fn parses_the_known_node_types() {
    let (classes, names) = parse_classes().expect("the known descriptions parse");
    assert_eq!(classes.len(), 4);
    assert_eq!(ast_vals().len(), 4);
    assert_eq!(classes[0].name, "Binary");
    let fields: Vec<(String, String)> = classes[0]
        .fields
        .iter()
        .map(|f| (f.fd_name.clone(), f.fd_type.clone()))
        .collect();
    assert_eq!(
        fields,
        vec![
            ("left".to_string(), "Expr".to_string()),
            ("operator".to_string(), "Token".to_string()),
            ("right".to_string(), "Expr".to_string()),
        ]
    );
    let mut names = names;
    names.sort();
    assert_eq!(names, vec!["Binary", "Grouping", "Literal", "Unary"]);
}

#[test]
fn refuses_malformed_descriptions() {
    assert!(parse_class("NoColon").is_none());
    assert!(parse_class("A: B: C").is_none());
    assert!(parse_class("A: Expr").is_none());
    assert!(parse_class("A: Expr a b").is_none());
    assert!(try_parse_classes(&["A: Expr a", "bad"]).is_none());
}

#[test]
fn names_occur_once() {
    let (classes, names) = try_parse_classes(&["A: Expr a", "A: Token t"]).unwrap();
    assert_eq!(classes.len(), 2);
    assert_eq!(names, vec!["A".to_string()]);
}

#[test]
fn trims_names_and_splits_fields_on_white_space() {
    let c = parse_class("  Grouping :  Expr\texpression ").unwrap();
    assert_eq!(c.name, "Grouping");
    assert_eq!(c.fields.len(), 1);
    assert_eq!(c.fields[0].fd_name, "expression");
    assert_eq!(c.fields[0].fd_type, "Expr");
}

#[test]
fn generates_the_source_text() {
    let (classes, _) = try_parse_classes(&["Grouping: Expr expression", "Literal: Object value"]).unwrap();
    assert_eq!(
        generate_structs(&classes),
        "pub struct Grouping {\n    expression: Box<Expr>,\n}\n\npub struct Literal {\n    value: Object,\n}\n\n"
    );
    assert_eq!(
        generate_enum(&classes),
        "pub enum Expr{\n    Grouping(Grouping),\n    Literal(Literal),\n}\n\n"
    );
    assert_eq!(
        generate_traits(&classes),
        "pub trait Visitor<R> {\n    fn visit_grouping(&mut self, expr: &Grouping) -> R;\n    fn visit_literal(&mut self, expr: &Literal) -> R;\n}\n\nimpl Expr {\n    pub fn accept<R>(&self, visitor: &mut impl Visitor<R>) -> R {\n        match self{\n            Expr::Grouping(e) => visitor.visit_grouping(e),\n            Expr::Literal(e) => visitor.visit_literal(e),\n        }\n    }\n}\n\n"
    );
    assert_eq!(
        generate_new(&classes),
        "impl Grouping {\n    pub fn new(expression: Expr,) -> Self {\n        Self{\n            expression: Box::new(expression),\n        }\n    }\n}\n\nimpl Literal {\n    pub fn new(value: Object,) -> Self {\n        Self{\n            value,\n        }\n    }\n}\n\n"
    );
}

#[test]
fn trait_methods_take_the_given_names() {
    let (classes, _) = try_parse_classes(&["Grouping: Expr expression"]).unwrap();
    let names = vec!["grp".to_string()];
    assert_eq!(
        generate_traits_named(&classes, &names),
        "pub trait Visitor<R> {\n    fn visit_grp(&mut self, expr: &Grouping) -> R;\n}\n\nimpl Expr {\n    pub fn accept<R>(&self, visitor: &mut impl Visitor<R>) -> R {\n        match self{\n            Expr::Grouping(e) => visitor.visit_grp(e),\n        }\n    }\n}\n\n"
    );
}

#[test]
fn trait_methods_are_named_in_lower_case() {
    let (classes, _) = try_parse_classes(&["MixedCase: Expr e"]).unwrap();
    let text = generate_traits(&classes);
    assert!(text.contains("fn visit_mixedcase(&mut self, expr: &MixedCase) -> R;"));
    assert!(text.contains("Expr::MixedCase(e) => visitor.visit_mixedcase(e),"));
}
