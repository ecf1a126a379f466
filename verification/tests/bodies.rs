use std::mem::size_of;

use heap_size::containers::InlineVec;
use heap_size::expr_store::{
    body_heap, body_with_source_map, expr_only_source_map_heap, expr_only_store_heap,
    format_template_heap, source_map_heap, store_heap, store_source_map_heap, Body, BodySourceMap,
    ExpressionOnlySourceMap, ExpressionOnlyStore, ExpressionStore, ExpressionStoreSourceMap,
    FormatTemplate, Hir,
};
use heap_size::signatures::{
    generic_params_heap, signature_with_source_map, ConstSignature, EnumSignature,
    FunctionSignature, GenericParams, ImplSignature, SignatureHeap, StaticSignature,
    StructSignature, TraitSignature, TypeAliasSignature, UnionSignature, VariantFields,
};
use la_arena::{Arena, ArenaMap, Idx, RawIdx};
use rowan::{TextRange, TextSize};
use rustc_hash::FxHashMap;
use smallvec::SmallVec;
use thin_vec::ThinVec;
use triomphe::Arc;

struct Sizes;

impl Hir for Sizes {
    type TypeRef = [u8; 3];
    type LifetimeRef = [u8; 5];
    type Expr = [u8; 7];
    type Pat = [u8; 11];
    type Binding = [u8; 13];
    type Label = [u8; 17];
    type Block = [u8; 19];
    type Hygiene = u32;
    type ExprOrPat = u32;
    type ExprRoot = [u8; 23];
    type TypeSource = u32;
    type LifetimeSource = u64;
    type ExprSource = u32;
    type PatSource = u64;
    type LabelSource = u16;
    type FieldSource = [u8; 29];
    type PatFieldSource = [u8; 31];
    type CaptureSource = [u8; 37];
    type MacroCallSource = u64;
    type MacroCall = [u8; 41];
    type Diagnostic = [u8; 43];
    type Name = u32;
    type TypeOrConstParam = [u8; 47];
    type LifetimeParam = [u8; 53];
    type WherePredicate = [u8; 59];
    type TypeBound = [u8; 61];
    type Field = [u8; 67];
}

fn idx<T>(n: u32) -> Idx<T> {
    Idx::from_raw(RawIdx::from_u32(n))
}

fn arena_of<T>(values: Vec<T>) -> Arena<T> {
    values.into_iter().collect()
}

fn expressions() -> ExpressionOnlyStore<Sizes> {
    ExpressionOnlyStore {
        exprs: arena_of(vec![[0; 7]; 2]),
        pats: arena_of(vec![[0; 11]; 3]),
        bindings: arena_of(vec![[0; 13]]),
        labels: arena_of(vec![[0; 17]; 4]),
        binding_owners: FxHashMap::default(),
        block_scopes: Box::new([[0; 19]; 2]),
        ident_hygiene: FxHashMap::default(),
        expr_roots: InlineVec(SmallVec::new()),
    }
}

const EXPRESSIONS: usize = 2 * 7 + 3 * 11 + 13 + 4 * 17 + 2 * 19;

fn store(expr_only: Option<Box<ExpressionOnlyStore<Sizes>>>) -> ExpressionStore<Sizes> {
    ExpressionStore {
        types: arena_of(vec![[0; 3]; 2]),
        lifetimes: arena_of(vec![[0; 5]; 3]),
        expr_only,
    }
}

const STORE: usize = 2 * 3 + 3 * 5;

fn params() -> GenericParams<Sizes> {
    GenericParams {
        type_or_consts: arena_of(vec![[0; 47]; 2]),
        lifetimes: arena_of(vec![[0; 53]]),
        where_predicates: Box::new([[0; 59]; 3]),
    }
}

const PARAMS: usize = 2 * 47 + 53 + 3 * 59;

fn source_map(
    expr_only: Option<Box<ExpressionOnlySourceMap<Sizes>>>,
) -> ExpressionStoreSourceMap<Sizes> {
    let mut map = ExpressionStoreSourceMap {
        types_map_back: ArenaMap::new(),
        types_map: FxHashMap::default(),
        lifetime_map_back: ArenaMap::new(),
        lifetime_map: FxHashMap::default(),
        expr_only,
    };
    map.types_map_back.insert(idx(0), 1);
    map.types_map_back.insert(idx(4), 1);
    map.lifetime_map_back.insert(idx(1), 1);
    map
}

const SOURCE_MAP: usize = 2 * size_of::<Option<u32>>() + size_of::<Option<u64>>();

fn template() -> FormatTemplate<Sizes> {
    FormatTemplate {
        format_args_to_captures: FxHashMap::default(),
        asm_to_captures: FxHashMap::default(),
        implicit_capture_to_source: FxHashMap::default(),
    }
}

fn expression_sources() -> ExpressionOnlySourceMap<Sizes> {
    ExpressionOnlySourceMap {
        expr_map: FxHashMap::default(),
        expr_map_back: ArenaMap::new(),
        pat_map: FxHashMap::default(),
        pat_map_back: ArenaMap::new(),
        label_map: FxHashMap::default(),
        label_map_back: ArenaMap::new(),
        binding_definitions: ArenaMap::new(),
        field_map_back: FxHashMap::default(),
        pat_field_map_back: FxHashMap::default(),
        template_map: None,
        expansions: FxHashMap::default(),
        diagnostics: ThinVec::new(),
    }
}

#[test]
fn the_expression_half_is_the_sum_of_its_parts() {
    let mut half = expressions();
    assert_eq!(expr_only_store_heap(&half), Some(EXPRESSIONS));
    half.binding_owners.insert(idx(0), idx(1));
    half.ident_hygiene.insert(1, 2);
    half.expr_roots = InlineVec(SmallVec::from_slice(&[[0; 23]; 2]));
    let roots = half.expr_roots.0.capacity() * 23;
    assert!(roots >= 46);
    let expected = EXPRESSIONS
        + half.binding_owners.capacity() * (size_of::<(Idx<u8>, Idx<u8>)>() + 1)
        + half.ident_hygiene.capacity() * (size_of::<(u32, u32)>() + 1)
        + roots;
    assert_eq!(expr_only_store_heap(&half), Some(expected));
}

#[test]
fn a_store_pays_for_its_expressions_and_their_box() {
    assert_eq!(store_heap(&store(None)), Some(STORE));
    assert_eq!(
        store_heap(&store(Some(Box::new(expressions())))),
        Some(STORE + size_of::<ExpressionOnlyStore<Sizes>>() + EXPRESSIONS)
    );
}

#[test]
fn a_body_pays_for_its_params_but_not_for_self() {
    let body: Body<Sizes> =
        Body { store: store(None), params: Box::new([idx(0), idx(1)]), self_param: None };
    let expected = STORE + 2 * size_of::<Idx<[u8; 11]>>();
    assert_eq!(body_heap(&body), Some(expected));
    let method = Body { self_param: Some(idx(7)), ..body };
    assert_eq!(body_heap(&method), Some(expected));
    let value = (Arc::new(method), BodySourceMap { store: source_map(None) });
    assert_eq!(source_map_heap(&value.1), Some(SOURCE_MAP));
    assert_eq!(body_with_source_map(&value), Some(expected + SOURCE_MAP));
}

#[test]
fn a_format_template_pays_for_the_vectors_in_its_maps() {
    let mut it = template();
    assert_eq!(format_template_heap(&it), Some(0));
    let range = TextRange::empty(TextSize::from(0));
    it.format_args_to_captures.insert(idx(0), (1, vec![(range, 1); 3]));
    it.asm_to_captures.insert(idx(1), vec![vec![(range, 1)], vec![(range, 2); 4]]);
    it.implicit_capture_to_source.insert(idx(2), [0; 37]);
    let captures: usize = it
        .format_args_to_captures
        .values()
        .map(|(_, captures)| captures.capacity() * size_of::<(TextRange, u32)>())
        .sum();
    let assembly: usize = it
        .asm_to_captures
        .values()
        .map(|outer| {
            outer.capacity() * size_of::<Vec<(TextRange, usize)>>()
                + outer
                    .iter()
                    .map(|inner| inner.capacity() * size_of::<(TextRange, usize)>())
                    .sum::<usize>()
        })
        .sum();
    assert!(captures >= 3 * size_of::<(TextRange, u32)>());
    assert!(assembly >= 5 * size_of::<(TextRange, usize)>());
    let key = size_of::<Idx<u8>>();
    assert_eq!(key, 4);
    let expected = it.format_args_to_captures.capacity()
        * (size_of::<(Idx<u8>, (u32, Vec<(TextRange, u32)>))>() + 1)
        + captures
        + it.asm_to_captures.capacity()
            * (size_of::<(Idx<u8>, Vec<Vec<(TextRange, usize)>>)>() + 1)
        + assembly
        + it.implicit_capture_to_source.capacity() * (size_of::<(Idx<u8>, [u8; 37])>() + 1);
    assert_eq!(format_template_heap(&it), Some(expected));
}

#[test]
fn the_expression_half_of_a_source_map_is_the_sum_of_its_parts() {
    let mut map = expression_sources();
    assert_eq!(expr_only_source_map_heap(&map), Some(0));
    map.expr_map.insert(1, 1);
    map.expr_map_back.insert(idx(0), 1);
    map.pat_map.insert(1, 1);
    map.pat_map_back.insert(idx(0), 1);
    map.label_map.insert(1, idx(0));
    map.label_map_back.insert(idx(0), 1);
    map.binding_definitions.insert(idx(0), InlineVec(SmallVec::from_slice(&[idx(0); 2])));
    map.binding_definitions.insert(idx(1), InlineVec(SmallVec::from_slice(&[idx(0); 6])));
    map.field_map_back.insert(idx(0), [0; 29]);
    map.pat_field_map_back.insert(idx(0), [0; 31]);
    map.template_map = Some(Box::new(template()));
    map.expansions.insert(1, [0; 41]);
    map.diagnostics.push([0; 43]);
    let definitions = map.binding_definitions[idx(1)].0.capacity() * size_of::<Idx<u8>>();
    assert!(definitions >= 24);
    let expected = map.expr_map.capacity() * (size_of::<(u32, u32)>() + 1)
        + size_of::<Option<u32>>()
        + map.pat_map.capacity() * (size_of::<(u64, u32)>() + 1)
        + size_of::<Option<u64>>()
        + map.label_map.capacity() * (size_of::<(u16, Idx<u8>)>() + 1)
        + size_of::<Option<u16>>()
        + 2 * size_of::<Option<InlineVec<Idx<[u8; 11]>, 4>>>()
        + definitions
        + map.field_map_back.capacity() * (size_of::<(Idx<u8>, [u8; 29])>() + 1)
        + map.pat_field_map_back.capacity() * (size_of::<(Idx<u8>, [u8; 31])>() + 1)
        + size_of::<FormatTemplate<Sizes>>()
        + map.expansions.capacity() * (size_of::<(u64, [u8; 41])>() + 1)
        + map.diagnostics.capacity() * 43;
    assert_eq!(expr_only_source_map_heap(&map), Some(expected));

    let mut whole = source_map(Some(Box::new(map)));
    let boxed = size_of::<ExpressionOnlySourceMap<Sizes>>() + expected;
    assert_eq!(store_source_map_heap(&whole), Some(SOURCE_MAP + boxed));
    whole.types_map.insert(1, idx(0));
    whole.lifetime_map.insert(1, idx(0));
    let maps = whole.types_map.capacity() * (size_of::<(u32, Idx<u8>)>() + 1)
        + whole.lifetime_map.capacity() * (size_of::<(u64, Idx<u8>)>() + 1);
    assert_eq!(store_source_map_heap(&whole), Some(SOURCE_MAP + maps + boxed));
}

fn with_source_map<T: SignatureHeap>(signature: T) -> Option<usize> {
    signature_with_source_map(&(Arc::new(signature), source_map(None)))
}

#[test]
fn each_signature_lists_what_it_owns() {
    assert_eq!(generic_params_heap(&params()), Some(PARAMS));
    let shared = Some(STORE + PARAMS + SOURCE_MAP);
    assert_eq!(
        with_source_map(StructSignature { store: store(None), generic_params: params() }),
        shared
    );
    assert_eq!(
        with_source_map(UnionSignature { store: store(None), generic_params: params() }),
        shared
    );
    assert_eq!(
        with_source_map(EnumSignature { store: store(None), generic_params: params() }),
        shared
    );
    assert_eq!(
        with_source_map(TraitSignature { store: store(None), generic_params: params() }),
        shared
    );
    assert_eq!(
        with_source_map(ImplSignature { store: store(None), generic_params: params() }),
        shared
    );
    let bare = Some(STORE + SOURCE_MAP);
    assert_eq!(with_source_map(ConstSignature { store: store(None) }), bare);
    assert_eq!(with_source_map(StaticSignature { store: store(None) }), bare);
    assert_eq!(
        with_source_map(FunctionSignature {
            store: store(None),
            generic_params: params(),
            params: Box::new([idx(0), idx(1), idx(2)]),
        }),
        shared.map(|bytes| bytes + 3 * size_of::<Idx<[u8; 3]>>())
    );
    assert_eq!(
        with_source_map(TypeAliasSignature {
            store: store(None),
            generic_params: params(),
            bounds: Box::new([[0; 61]; 2]),
        }),
        shared.map(|bytes| bytes + 2 * 61)
    );
    assert_eq!(
        with_source_map(VariantFields { store: store(None), fields: arena_of(vec![[0; 67]; 2]) }),
        bare.map(|bytes| bytes + 2 * 67)
    );
}
