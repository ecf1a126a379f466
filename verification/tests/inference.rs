use std::mem::size_of;

use heap_size::containers::{FxIndexMap, InlineVec};
use heap_size::expr_store::Hir;
use heap_size::infer::{
    closure_data, inference_result, ClosureData, Inference, InferenceResult,
};
use la_arena::{ArenaMap, Idx, RawIdx};
use rustc_hash::FxHashMap;
use smallvec::SmallVec;

struct Types;

impl Hir for Types {
    type TypeRef = u32;
    type LifetimeRef = u32;
    type Expr = u8;
    type Pat = u16;
    type Binding = u32;
    type Label = u32;
    type Block = u32;
    type Hygiene = u32;
    type ExprOrPat = u32;
    type ExprRoot = u32;
    type TypeSource = u32;
    type LifetimeSource = u32;
    type ExprSource = u32;
    type PatSource = u32;
    type LabelSource = u32;
    type FieldSource = u32;
    type PatFieldSource = u32;
    type CaptureSource = u32;
    type MacroCallSource = u32;
    type MacroCall = u32;
    type Diagnostic = u32;
    type Name = u32;
    type TypeOrConstParam = u32;
    type LifetimeParam = u32;
    type WherePredicate = u32;
    type TypeBound = u32;
    type Field = u32;
}

impl Inference for Types {
    type Ty = u64;
    type BindingMode = u8;
    type MethodResolution = u64;
    type FieldResolution = u32;
    type Closure = u32;
    type CapturedPlace = [u64; 3];
    type Place = u64;
    type FakeReadCause = u8;
    type CaptureSourceStack = u32;
    type Signature = u64;
}

fn idx<T>(n: usize) -> Idx<T> {
    Idx::from_raw(RawIdx::from_u32(n as u32))
}

fn nothing_inferred() -> InferenceResult<Types> {
    InferenceResult {
        type_of_expr: ArenaMap::new(),
        type_of_pat: ArenaMap::new(),
        type_of_binding: ArenaMap::new(),
        binding_modes: ArenaMap::new(),
        method_resolutions: FxHashMap::default(),
        field_resolutions: FxHashMap::default(),
        closures_data: FxHashMap::default(),
    }
}

fn no_captures() -> ClosureData<Types> {
    ClosureData { min_captures: FxIndexMap::default(), fake_reads: Box::new([]), liberated_sig: 0 }
}

/// Infers a function whose body is literals, `let`s and closures over a tuple.
fn infer(ra_fixture: &str) -> InferenceResult<Types> {
    let text: String = ra_fixture.lines().filter(|line| !line.starts_with("//-")).collect();
    let body = &text[text.find('{').unwrap() + 1..text.rfind('}').unwrap()];
    let mut result = nothing_inferred();
    let (mut exprs, mut pats) = (0, 0);
    let mut bindings: Vec<&str> = Vec::new();
    for statement in body.split(';').map(str::trim).filter(|it| !it.is_empty()) {
        let mut expr = statement;
        if let Some(rest) = statement.strip_prefix("let ") {
            let (pat, init) = rest.split_once(" = ").unwrap();
            result.type_of_pat.insert(idx(pats), 0);
            if pat != "_" {
                result.type_of_binding.insert(idx(bindings.len()), 0);
                result.binding_modes.insert(idx(pats), 0);
                bindings.push(pat);
            }
            pats += 1;
            expr = init;
        }
        if let Some(tuple) = expr.strip_prefix("|| (") {
            let mut closure = no_captures();
            for name in tuple.trim_end_matches(')').split(", ") {
                let root = bindings.iter().position(|it| *it == name).unwrap();
                closure.min_captures.entry(idx(root)).or_insert_with(|| vec![[0; 3]]);
                result.type_of_expr.insert(idx(exprs), 0);
                exprs += 1;
            }
            result.type_of_expr.insert(idx(exprs), 0);
            exprs += 1;
            let id = result.closures_data.len() as u32;
            result.closures_data.insert(id, closure);
        }
        result.type_of_expr.insert(idx(exprs), 0);
        exprs += 1;
    }
    result
}

fn heap(ra_fixture: &str) -> usize {
    infer(ra_fixture).heap_size().unwrap()
}

/// One statement per line of the same shape, as a fixture body.
fn body(statements: impl Iterator<Item = String>) -> String {
    format!("fn f() {{ {} }}", statements.collect::<String>())
}

/// The dense half: a type is recorded for every expression in the body, and that
/// map is where most of a big body's bytes are.
#[test]
fn a_body_with_more_expressions_has_a_heavier_inference_result() {
    let one = heap("fn f() { 1; }");
    let many = heap(&body((0..200).map(|_| "1;".to_owned())));

    assert!(
        many > one,
        "two hundred expressions weighed no more than one ({one} bytes), so the per-expression \
         type map is not reaching the total"
    );
}

/// Patterns and bindings, pinned one at a time: the three fixtures hold the
/// expression count fixed and add exactly one family per step.
#[test]
fn patterns_and_bindings_are_counted_beside_the_expressions() {
    const COUNT: usize = 200;
    let expressions = heap(&body((0..COUNT).map(|_| "1;".to_owned())));
    let wildcards = heap(&body((0..COUNT).map(|_| "let _ = 1;".to_owned())));
    let named = heap(&body((0..COUNT).map(|i| format!("let x{i} = 1;"))));

    assert!(
        wildcards > expressions,
        "{COUNT} wildcard `let`s weighed no more than {COUNT} bare expressions \
         ({expressions} bytes) — the pattern map is going uncounted"
    );
    assert!(
        named > wildcards,
        "{COUNT} named `let`s weighed no more than {COUNT} wildcard ones ({wildcards} bytes) \
         — the binding-keyed maps are going uncounted"
    );
}

/// Both closures have the same shape, so only the capture set differs: one root
/// variable against twenty.
#[test]
fn a_closure_that_captures_more_variables_weighs_more() {
    const COUNT: usize = 20;
    let lets = (0..COUNT).map(|i| format!("let a{i} = 1;")).collect::<String>();
    let closure = |captures: &dyn Fn(usize) -> String| {
        let elements = (0..COUNT).map(captures).collect::<Vec<_>>().join(", ");
        format!(
            "//- minicore: fn
//- /main.rs
fn f() {{ {lets} let c = || ({elements}); }}"
        )
    };

    let one_root = heap(&closure(&|_| "a0".to_owned()));
    let every_root = heap(&closure(&|i| format!("a{i}")));

    assert!(
        every_root > one_root,
        "a closure capturing {COUNT} variables weighed no more than one capturing a single \
         variable {COUNT} times ({one_root} bytes) — the per-closure capture list is not \
         reaching the total"
    );
}

#[test]
fn a_closure_is_the_sum_of_its_captures_and_reads() {
    let mut data = no_captures();
    assert_eq!(closure_data(&data), Some(0));
    data.min_captures.insert(idx(0), Vec::with_capacity(5));
    data.min_captures.insert(idx(1), vec![[0; 3]; 2]);
    let places: usize = data.min_captures.values().map(|it| it.capacity() * 24).sum();
    let entry = size_of::<usize>() + size_of::<Idx<u32>>() + size_of::<Vec<[u64; 3]>>();
    let captures = data.min_captures.capacity() * entry + places;
    assert!(places >= 7 * 24);
    assert_eq!(closure_data(&data), Some(captures));

    let inline: SmallVec<[u32; 2]> = SmallVec::from_slice(&[1, 2]);
    let spilled: SmallVec<[u32; 2]> = SmallVec::from_slice(&[1, 2, 3]);
    let sources = spilled.capacity() * 4;
    data.fake_reads = Box::new([(0, 0, InlineVec(inline)), (0, 0, InlineVec(spilled))]);
    let reads = 2 * size_of::<(u64, u8, InlineVec<u32, 2>)>();
    assert!(sources >= 12);
    assert_eq!(closure_data(&data), Some(captures + reads + sources));

    data.liberated_sig = 99;
    assert_eq!(closure_data(&data), Some(captures + reads + sources));
}

#[test]
fn an_inference_result_is_the_sum_of_its_maps() {
    let mut result = infer("fn f() { 1; let _ = 1; let x = 1; let c = || (x, x); }");
    result.method_resolutions.insert(idx(0), 1);
    result.field_resolutions.insert(idx(0), 1);
    let closures: usize =
        result.closures_data.values().map(|it| closure_data(it).unwrap()).sum();
    let expected = 7 * size_of::<Option<u64>>()
        + 3 * size_of::<Option<u64>>()
        + 2 * size_of::<Option<u64>>()
        + 2 * size_of::<Option<u8>>()
        + result.method_resolutions.capacity() * (size_of::<(Idx<u8>, u64)>() + 1)
        + result.field_resolutions.capacity() * (size_of::<(Idx<u8>, u32)>() + 1)
        + result.closures_data.capacity() * (size_of::<(u32, ClosureData<Types>)>() + 1)
        + closures;
    assert!(closures > 0);
    assert_eq!(inference_result(&result), Some(expected));
    assert_eq!(inference_result(&nothing_inferred()), Some(0));
}
