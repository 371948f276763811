use parser::builder::Builder;
use parser::chunk::{Chunk, Item};
use parser::definition::{Definition, Literal, Section};
use parser::error::Error;
use parser::lexer::Lexer;
use parser::registry::Registry;
use parser::resolver::Resolver;
use parser::token::{Token, TokenKind};

fn tok(text: &str, position: usize) -> Token {
    let kind = if text == "\n" { TokenKind::Newline } else { TokenKind::Word };
    Token::new(kind, text.to_string(), position)
}

fn words(src: &str) -> Vec<Token> {
    src.split(' ').enumerate().map(|(i, w)| tok(w, i)).collect()
}

fn kw(text: &str) -> Section {
    Section::new(Literal::keyword(text.to_string()))
}

fn var(name: &str) -> Section {
    Section::new(Literal::variable(name.to_string()))
}

fn if_then() -> Definition {
    Definition::new("if_then".to_string(), vec![kw("if"), var("cond"), kw("then"), var("body")])
}

fn texts(items: &[Item]) -> Vec<String> {
    items
        .iter()
        .map(|i| match i {
            Item::Tok(t) => t.text.clone(),
            Item::Nested(c) => format!("<{}>", c.name.clone().unwrap_or_default()),
        })
        .collect()
}

fn flatten(chunks: &[Chunk]) -> Vec<Token> {
    let mut out = Vec::new();
    for c in chunks {
        for cap in &c.captures {
            for i in cap {
                match i {
                    Item::Tok(t) => out.push(t.duplicate()),
                    Item::Nested(n) => out.extend(flatten(std::slice::from_ref(n))),
                }
            }
        }
    }
    out
}

#[test]
fn if_then_resolves_to_one_chunk() {
    let mut r = Resolver::new(vec![if_then()]);
    let chunks = r.run(words("if a then b")).unwrap();
    assert_eq!(chunks.len(), 1);
    assert_eq!(chunks[0].name.as_deref(), Some("if_then"));
    assert_eq!(chunks[0].captures.len(), 2);
    assert_eq!(texts(&chunks[0].captures[0]), vec!["a"]);
    assert_eq!(texts(&chunks[0].captures[1]), vec!["b"]);
    assert!(r.current_builder().is_none());
}

#[test]
fn nested_trigger_resolves_inner_first() {
    let mut r = Resolver::new(vec![if_then()]);
    let chunks = r.run(words("if a then if b then c")).unwrap();
    assert_eq!(chunks.len(), 1);
    assert_eq!(chunks[0].name.as_deref(), Some("if_then"));
    assert_eq!(texts(&chunks[0].captures[0]), vec!["a"]);
    assert_eq!(chunks[0].captures[1].len(), 1);
    match &chunks[0].captures[1][0] {
        Item::Nested(inner) => {
            assert_eq!(inner.name.as_deref(), Some("if_then"));
            assert_eq!(texts(&inner.captures[0]), vec!["b"]);
            assert_eq!(texts(&inner.captures[1]), vec!["c"]);
        }
        Item::Tok(_) => panic!("expected a nested chunk"),
    }
}

#[test]
fn unterminated_macro_names_definition() {
    let mut r = Resolver::new(vec![if_then()]);
    match r.run(words("if a")) {
        Err(Error::UnterminatedMacro { name, section, position }) => {
            assert_eq!(name, "if_then");
            assert_eq!(section, 2);
            assert_eq!(position, 1);
        }
        other => panic!("unexpected {:?}", other),
    }
    assert!(r.current_builder().is_none());
}

#[test]
fn keyword_outranks_variable() {
    let catch_all = Definition::new("any".to_string(), vec![var("x"), kw("end")]);
    let reg = Registry::from_definitions(vec![catch_all, if_then()]);
    assert_eq!(reg.lookup(&tok("if", 0), true), Some(1));
    assert_eq!(reg.lookup(&tok("zz", 0), true), Some(0));
    let catch_all = Definition::new("any".to_string(), vec![var("x"), kw("end")]);
    let mut r = Resolver::new(vec![catch_all, if_then()]);
    let chunks = r.run(words("if a then b")).unwrap();
    assert_eq!(chunks.len(), 1);
    assert_eq!(chunks[0].name.as_deref(), Some("if_then"));
}

#[test]
fn registration_order_breaks_ties() {
    let first = Definition::new("first".to_string(), vec![kw("go"), var("x")]);
    let second = Definition::new("second".to_string(), vec![kw("go"), var("y")]);
    let reg = Registry::from_definitions(vec![first, second]);
    assert_eq!(reg.lookup(&tok("go", 0), true), Some(0));
    assert_eq!(reg.lookup(&tok("stop", 0), true), None);
}

#[test]
fn duplicate_registration_is_refused() {
    let mut r = Resolver::new(vec![]);
    let first = Definition::new("foo".to_string(), vec![kw("a")]);
    let second = Definition::new("foo".to_string(), vec![kw("b"), var("x")]);
    assert!(r.define_macro(first).is_ok());
    match r.define_macro(second) {
        Err(Error::DuplicateMacroName { name }) => assert_eq!(name, "foo"),
        other => panic!("unexpected {:?}", other),
    }
    assert_eq!(r.registry.definitions.len(), 1);
    assert_eq!(r.registry.definitions[0].sections.len(), 1);
    let chunks = r.run(words("a")).unwrap();
    assert_eq!(chunks.len(), 1);
    assert_eq!(chunks[0].name.as_deref(), Some("foo"));
    assert_eq!(chunks[0].captures.len(), 0);
}

#[test]
fn new_keeps_first_of_each_name() {
    let first = Definition::new("foo".to_string(), vec![kw("a")]);
    let second = Definition::new("foo".to_string(), vec![kw("b")]);
    let third = Definition::new("bar".to_string(), vec![kw("c")]);
    let r = Resolver::new(vec![first, second, third]);
    assert_eq!(r.registry.definitions.len(), 2);
    assert_eq!(r.registry.definitions[0].name, "foo");
    assert_eq!(r.registry.definitions[1].name, "bar");
}

#[test]
fn full_match_gives_interleaved_captures() {
    let def = Definition::new("let".to_string(), vec![kw("let"), var("pat"), kw("="), var("val"), kw(";")]);
    let mut r = Resolver::new(vec![def]);
    let chunks = r.run(words("let x y = 5 6 ;")).unwrap();
    assert_eq!(chunks.len(), 1);
    assert_eq!(chunks[0].name.as_deref(), Some("let"));
    assert_eq!(texts(&chunks[0].captures[0]), vec!["x", "y"]);
    assert_eq!(texts(&chunks[0].captures[1]), vec!["5", "6"]);
}

#[test]
fn untriggered_input_is_idempotent() {
    let mut r = Resolver::new(vec![if_then()]);
    let chunks = r.run(words("a b c")).unwrap();
    assert_eq!(chunks.len(), 1);
    assert_eq!(chunks[0].name, None);
    assert_eq!(texts(&chunks[0].captures[0]), vec!["a", "b", "c"]);
    let again = r.run(flatten(&chunks)).unwrap();
    assert_eq!(again.len(), 1);
    assert_eq!(again[0].name, None);
    assert_eq!(texts(&again[0].captures[0]), vec!["a", "b", "c"]);
}

#[test]
fn empty_input_gives_no_chunks() {
    let mut r = Resolver::new(vec![if_then()]);
    assert_eq!(r.run(vec![]).unwrap().len(), 0);
}

#[test]
fn plain_runs_surround_macros() {
    let paren = Definition::new("paren".to_string(), vec![kw("("), var("inner"), kw(")")]);
    let mut r = Resolver::new(vec![paren]);
    let chunks = r.run(words("x ( a b ) y z")).unwrap();
    assert_eq!(chunks.len(), 3);
    assert_eq!(chunks[0].name, None);
    assert_eq!(texts(&chunks[0].captures[0]), vec!["x"]);
    assert_eq!(chunks[1].name.as_deref(), Some("paren"));
    assert_eq!(texts(&chunks[1].captures[0]), vec!["a", "b"]);
    assert_eq!(chunks[2].name, None);
    assert_eq!(texts(&chunks[2].captures[0]), vec!["y", "z"]);
}

#[test]
fn broken_keyword_sequence_fails() {
    let def = Definition::new("do_end".to_string(), vec![kw("do"), kw("end")]);
    let mut r = Resolver::new(vec![def]);
    match r.run(words("do x end")) {
        Err(Error::UnterminatedMacro { name, section, position }) => {
            assert_eq!(name, "do_end");
            assert_eq!(section, 1);
            assert_eq!(position, 1);
        }
        other => panic!("unexpected {:?}", other),
    }
}

#[test]
fn line_start_only_definition() {
    let hash = Definition::new_line_start("hash".to_string(), vec![kw("#"), var("rest")]);
    let mut r = Resolver::new(vec![hash]);
    let chunks = r.run(words("a #")).unwrap();
    assert_eq!(chunks.len(), 1);
    assert_eq!(chunks[0].name, None);
    let chunks = r.run(words("a \n # b")).unwrap();
    assert_eq!(chunks.len(), 2);
    assert_eq!(texts(&chunks[0].captures[0]), vec!["a", "\n"]);
    assert_eq!(chunks[1].name.as_deref(), Some("hash"));
    assert_eq!(texts(&chunks[1].captures[0]), vec!["b"]);
}

#[test]
fn variable_first_definition_captures_trigger() {
    let def = Definition::new("assign".to_string(), vec![var("lhs"), kw(":="), var("rhs")]);
    let mut r = Resolver::new(vec![def]);
    let chunks = r.run(words("x := y")).unwrap();
    assert_eq!(chunks.len(), 1);
    assert_eq!(texts(&chunks[0].captures[0]), vec!["x"]);
    assert_eq!(texts(&chunks[0].captures[1]), vec!["y"]);
}

#[test]
fn single_keyword_macro_nests_in_capture() {
    let unit = Definition::new("unit".to_string(), vec![kw("()")]);
    let mut r = Resolver::new(vec![if_then(), unit]);
    let chunks = r.run(words("if () then b")).unwrap();
    assert_eq!(chunks.len(), 1);
    assert_eq!(texts(&chunks[0].captures[0]), vec!["<unit>"]);
    assert_eq!(texts(&chunks[0].captures[1]), vec!["b"]);
}

#[test]
fn builder_stack_operations() {
    let mut r = Resolver::new(vec![if_then()]);
    assert!(r.current_builder().is_none());
    assert!(r.pop_builder().is_none());
    r.push_builder(Builder { definition: 0, cursor: 1, captures: vec![], open: vec![] });
    assert_eq!(r.current_builder().map(|b| b.cursor), Some(1));
    if let Some(b) = r.current_builder_mut() {
        b.open.push(Item::Tok(tok("a", 0)));
    }
    assert_eq!(r.current_builder().map(|b| b.open.len()), Some(1));
    let b = r.pop_builder().unwrap();
    assert_eq!(b.definition, 0);
    assert!(r.current_builder().is_none());
}

#[test]
fn plain_chunk_holds_tokens() {
    let c = Chunk::plain(words("p q"));
    assert_eq!(c.name, None);
    assert_eq!(c.captures.len(), 1);
    assert_eq!(texts(&c.captures[0]), vec!["p", "q"]);
}

#[test]
fn lexer_constructs() {
    let _l = Lexer::new();
}
