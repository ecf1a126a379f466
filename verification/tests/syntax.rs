use std::collections::HashSet;
use std::marker::PhantomData;
use std::mem::size_of;

use heap_size::expand::{parse_macro_expansion, span_map_heap, ExpandResult, ExpansionSpanMap};
use heap_size::green::green_tree;
use heap_size::syntax::{parse, Parse, SyntaxError};
use rowan::{
    GreenNode, GreenNodeBuilder, GreenNodeData, GreenToken, NodeOrToken, SyntaxKind, TextRange,
    TextSize,
};
use triomphe::Arc;

const CHILD_SLOT: usize = 2 * size_of::<usize>();

const SOURCE_FILE: SyntaxKind = SyntaxKind(0);
const FN: SyntaxKind = SyntaxKind(1);
const NAME: SyntaxKind = SyntaxKind(2);
const PARAM_LIST: SyntaxKind = SyntaxKind(3);
const BLOCK_EXPR: SyntaxKind = SyntaxKind(4);
const LET_STMT: SyntaxKind = SyntaxKind(5);
const IDENT_PAT: SyntaxKind = SyntaxKind(6);
const LITERAL: SyntaxKind = SyntaxKind(7);
const WHITESPACE: SyntaxKind = SyntaxKind(8);
const WORD: SyntaxKind = SyntaxKind(9);
const PUNCT: SyntaxKind = SyntaxKind(10);

struct SourceFile;

/// A parser for functions whose bodies are `let` statements.
struct Parser<'a> {
    rest: &'a str,
    builder: GreenNodeBuilder<'static>,
}

impl<'a> Parser<'a> {
    fn peek(&self) -> Option<char> {
        self.rest.chars().next()
    }

    fn bump(&mut self) {
        let first = self.peek().unwrap();
        let same = |c: char| {
            if first.is_whitespace() {
                c.is_whitespace()
            } else {
                c.is_alphanumeric() || c == '_'
            }
        };
        let kind = if first.is_whitespace() {
            WHITESPACE
        } else if same(first) {
            WORD
        } else {
            PUNCT
        };
        let len = if kind == PUNCT {
            first.len_utf8()
        } else {
            self.rest.find(|c: char| !same(c)).unwrap_or(self.rest.len())
        };
        self.builder.token(kind, &self.rest[..len]);
        self.rest = &self.rest[len..];
    }

    fn space(&mut self) {
        if self.peek().is_some_and(|c| c.is_whitespace()) {
            self.bump();
        }
    }

    fn wrapped(&mut self, kind: SyntaxKind) {
        self.builder.start_node(kind);
        self.bump();
        self.builder.finish_node();
    }

    fn let_stmt(&mut self) {
        self.builder.start_node(LET_STMT);
        self.bump();
        self.space();
        self.builder.start_node(IDENT_PAT);
        self.wrapped(NAME);
        self.builder.finish_node();
        self.space();
        self.bump();
        self.space();
        self.wrapped(LITERAL);
        self.bump();
        self.builder.finish_node();
    }

    fn function(&mut self) {
        self.builder.start_node(FN);
        self.bump();
        self.space();
        self.wrapped(NAME);
        self.builder.start_node(PARAM_LIST);
        self.bump();
        self.bump();
        self.builder.finish_node();
        self.space();
        self.builder.start_node(BLOCK_EXPR);
        self.bump();
        self.space();
        while self.peek() != Some('}') {
            self.let_stmt();
            self.space();
        }
        self.bump();
        self.builder.finish_node();
        self.builder.finish_node();
    }
}

fn parse_source(text: &str) -> Parse<SourceFile> {
    let mut parser = Parser { rest: text, builder: GreenNodeBuilder::new() };
    parser.builder.start_node(SOURCE_FILE);
    while parser.peek().is_some() {
        parser.function();
        parser.space();
    }
    parser.builder.finish_node();
    Parse { green: Some(parser.builder.finish()), errors: None, ty: PhantomData }
}

/// The same walk with either visited-set switchable off, so a test can ask what
/// each half of the deduplication is worth on its own.
fn walk(root: &GreenNodeData, dedup_nodes: bool, dedup_tokens: bool) -> usize {
    let mut seen_nodes: HashSet<usize> = HashSet::new();
    let mut seen_tokens: HashSet<usize> = HashSet::new();
    let mut worklist = vec![root];
    let mut total = 0;
    while let Some(node) = worklist.pop() {
        if dedup_nodes && !seen_nodes.insert(std::ptr::from_ref(node).addr()) {
            continue;
        }
        let mut slots = 0;
        for child in node.children() {
            slots += 1;
            match child {
                NodeOrToken::Node(node) => worklist.push(node),
                NodeOrToken::Token(token) => {
                    if !dedup_tokens || seen_tokens.insert(std::ptr::from_ref(token).addr()) {
                        total += token.text().len();
                    }
                }
            }
        }
        total += slots * CHILD_SLOT;
    }
    total
}

#[test]
fn a_shared_allocation_is_charged_once() {
    // Repetition on purpose: these statements share both their subtrees
    // and their tokens.
    let source = "fn f() { let a = 1; let a = 1; let a = 1; let a = 1; let a = 1; }";
    let parse = parse_source(source);
    let green = parse.green.as_ref().unwrap();

    let deduped = green_tree(green).unwrap();
    assert!(deduped > 0, "a parsed file cannot cost nothing");
    assert_eq!(
        deduped,
        walk(green, true, true),
        "the test's own walk no longer agrees with the real one; whatever changed in \
         `green_tree` has left the comparisons below measuring something else"
    );

    let without_node_dedup = walk(green, false, true);
    let without_token_dedup = walk(green, true, false);
    assert!(
        deduped < without_node_dedup,
        "charging shared *nodes* once per parent came to the same {deduped} bytes: either \
         this source shares no subtrees (pick a more repetitive one) or the node set has \
         stopped filtering"
    );
    assert!(
        deduped < without_token_dedup,
        "charging shared *tokens* once per parent came to the same {deduped} bytes: either \
         this source shares no tokens (pick a more repetitive one) or the token set has \
         stopped filtering. This is the half a single both-off comparison misses, because \
         node sharing alone is enough to make that one pass"
    );
}

/// Guards the direction of the number: it has to grow with the file, or it
/// is not measuring the file.
#[test]
fn more_code_costs_more() {
    let small = parse_source("fn f() {}");
    let large = parse_source(&"fn f() { let x = 1; }\n".repeat(200));

    assert!(parse(&large) > parse(&small), "200 functions did not weigh more than one");
}

fn token(text: &str) -> GreenToken {
    GreenToken::new(WORD, text)
}

#[test]
fn a_tree_weighs_its_slots_and_its_text() {
    let node = GreenNode::new(FN, vec![NodeOrToken::Token(token("abc")), NodeOrToken::Token(token("é"))]);
    assert_eq!(green_tree(&node), Some(2 * CHILD_SLOT + 3 + 2));
    let empty = GreenNode::new(FN, vec![]);
    assert_eq!(green_tree(&empty), Some(0));
}

#[test]
fn equal_tokens_in_two_allocations_are_two_charges() {
    let twice = GreenNode::new(FN, vec![NodeOrToken::Token(token("abc")), NodeOrToken::Token(token("abc"))]);
    assert_eq!(green_tree(&twice), Some(2 * CHILD_SLOT + 6));
    let once = token("abc");
    let shared =
        GreenNode::new(FN, vec![NodeOrToken::Token(once.clone()), NodeOrToken::Token(once)]);
    assert_eq!(green_tree(&shared), Some(2 * CHILD_SLOT + 3));
}

#[test]
fn a_child_that_is_there_already_costs_one_slot() {
    let leaf = GreenNode::new(NAME, vec![NodeOrToken::Token(token("name"))]);
    let one = GreenNode::new(FN, vec![NodeOrToken::Node(leaf.clone())]);
    let two = GreenNode::new(FN, vec![NodeOrToken::Node(leaf.clone()), NodeOrToken::Node(leaf.clone())]);
    assert_eq!(green_tree(&leaf), Some(CHILD_SLOT + 4));
    assert_eq!(green_tree(&one), Some(2 * CHILD_SLOT + 4));
    assert_eq!(green_tree(&two), Some(3 * CHILD_SLOT + 4));
    assert!(green_tree(&leaf) < green_tree(&one));
    assert!(parse(&parsed(Some(leaf.clone()), None)) < parse(&parsed(Some(one.clone()), None)));
    let other = GreenNode::new(NAME, vec![NodeOrToken::Token(token("name"))]);
    let mixed = GreenNode::new(FN, vec![NodeOrToken::Node(leaf.clone()), NodeOrToken::Node(other)]);
    assert_eq!(green_tree(&mixed), Some(4 * CHILD_SLOT + 8));
    assert!(green_tree(&leaf).unwrap() + CHILD_SLOT <= green_tree(&two).unwrap());
    assert!(green_tree(&two).unwrap() < 2 * CHILD_SLOT + 2 * green_tree(&leaf).unwrap());
    assert_eq!(
        green_tree(&mixed).unwrap(),
        2 * CHILD_SLOT + 2 * green_tree(&leaf).unwrap()
    );
    assert!(green_tree(&two).unwrap() < walk(&two, false, true));
    assert_eq!(green_tree(&two).unwrap(), walk(&two, true, false));
    assert!(green_tree(&two).unwrap() <= walk(&two, false, false));
}

#[test]
fn a_tree_that_shares_nothing_saves_nothing() {
    let a = GreenNode::new(NAME, vec![NodeOrToken::Token(token("a"))]);
    let b = GreenNode::new(NAME, vec![NodeOrToken::Token(token("b"))]);
    let node = GreenNode::new(FN, vec![NodeOrToken::Node(a), NodeOrToken::Node(b)]);
    assert_eq!(green_tree(&node), Some(walk(&node, false, false)));
}

fn error(message: &str) -> SyntaxError {
    SyntaxError { message: message.to_string(), range: TextRange::empty(TextSize::from(0)) }
}

fn parsed(green: Option<GreenNode>, errors: Option<Vec<SyntaxError>>) -> Parse<SourceFile> {
    Parse { green, errors: errors.map(Arc::from), ty: PhantomData }
}

#[test]
fn a_parse_weighs_its_tree_and_its_errors() {
    let node = GreenNode::new(FN, vec![NodeOrToken::Token(token("abc"))]);
    let error_bytes = size_of::<SyntaxError>();
    assert_eq!(parse(&parsed(None, None)), Some(0));
    assert_eq!(parse(&parsed(Some(node.clone()), None)), Some(CHILD_SLOT + 3));
    assert_eq!(parse(&parsed(None, Some(vec![error("a"), error("b")]))), Some(2 * error_bytes));
    assert_eq!(
        parse(&parsed(Some(node), Some(vec![error("a")]))),
        Some(CHILD_SLOT + 3 + error_bytes)
    );
}

#[test]
fn an_expansion_weighs_its_parse_and_its_spans_but_not_its_error() {
    let spans = vec![(TextSize::from(1), 7u64), (TextSize::from(2), 8u64)];
    let entry = size_of::<(TextSize, u64)>();
    let span_map = ExpansionSpanMap { spans };
    assert_eq!(span_map_heap(&span_map), Some(2 * entry));
    let node = GreenNode::new(FN, vec![NodeOrToken::Token(token("abc"))]);
    let value = (parsed(Some(node), None), span_map);
    let fine: ExpandResult<_, String> = ExpandResult { value, err: None };
    let expected = Some(CHILD_SLOT + 3 + 2 * entry);
    assert_eq!(parse_macro_expansion(&fine), expected);
    let failed = ExpandResult { value: fine.value, err: Some("no rule matched".to_string()) };
    assert_eq!(parse_macro_expansion(&failed), expected);
}
