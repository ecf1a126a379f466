use std::mem::size_of;

use heap_size::containers::{index_map, FxIndexMap};
use heap_size::def_map::{
    def_map, def_map_pair, DefMap, DefMapCrateData, ItemScope, LocalDefMap, ModuleData,
    NameResolution,
};
use heap_size::item_tree::{file_item_tree, item_tree, ItemTree, Items};
use rustc_hash::{FxHashMap, FxHashSet};
use thin_vec::ThinVec;
use triomphe::Arc;

struct Names;

impl NameResolution for Names {
    type Module = u32;
    type Block = u32;
    type Name = String;
    type Symbol = String;
    type Item = u64;
    type Macro = u64;
    type Definition = u64;
    type Impl = u64;
    type ExternCrate = u32;
    type Diagnostic = u16;
}

impl Items for Names {
    type ModItem = u32;
    type Attrs = u64;
    type Visibility = u8;
    type BigItem = [u64; 4];
    type SmallItem = [u64; 2];
}

/// An item of a fixture, with the number of braces around it.
struct Item {
    depth: usize,
    keyword: String,
    name: String,
}

/// The tools and the items that a fixture declares, in the order of its text.
fn scan(ra_fixture: &str) -> (Vec<String>, Vec<Item>) {
    let mut tools = Vec::new();
    let mut items = Vec::new();
    let mut depth = 0;
    for line in ra_fixture.lines().filter(|line| !line.starts_with("//-")) {
        if let Some(rest) = line.strip_prefix("#![register_tool(") {
            tools.push(rest.trim_end_matches(")]").to_string());
            continue;
        }
        let mut keyword = None;
        let spaced = line.replace('{', " { ").replace('}', " } ");
        for word in spaced.split_whitespace() {
            match word {
                "{" => depth += 1,
                "}" => depth -= 1,
                "fn" | "struct" | "mod" => keyword = Some(word.to_string()),
                _ => {
                    if let Some(keyword) = keyword.take() {
                        let name = word.trim_end_matches([';', '(', ')']).to_string();
                        items.push(Item { depth, keyword, name });
                    }
                }
            }
        }
    }
    (tools, items)
}

fn scope<'a>(items: impl Iterator<Item = &'a Item>) -> ItemScope<Names> {
    let mut scope = ItemScope {
        types: FxIndexMap::default(),
        values: FxIndexMap::default(),
        macros: FxIndexMap::default(),
        unresolved: FxHashSet::default(),
        declarations: ThinVec::new(),
        impls: ThinVec::new(),
    };
    for (i, item) in items.enumerate() {
        let i = i as u64;
        if item.keyword != "fn" {
            scope.types.insert(item.name.clone(), i);
        }
        if item.keyword != "mod" {
            scope.values.insert(item.name.clone(), i);
        }
        scope.declarations.push(i);
    }
    scope
}

fn resolved<'a>(
    block: Option<u32>,
    items: impl Iterator<Item = &'a Item>,
    data: &Arc<DefMapCrateData<Names>>,
) -> DefMap<Names> {
    let mut modules = FxIndexMap::default();
    modules.insert(0, ModuleData { scope: scope(items) });
    DefMap {
        block,
        modules,
        macro_use_prelude: FxHashMap::default(),
        diagnostics: Vec::new(),
        data: Arc::clone(data),
    }
}

fn crate_data(tools: Vec<String>) -> Arc<DefMapCrateData<Names>> {
    Arc::new(DefMapCrateData { registered_tools: tools, unstable_features: FxHashSet::default() })
}

/// The rule that a shared allocation is charged to exactly one owner, asserted
/// from both sides: either half alone stays green while the other is broken.
#[test]
fn a_block_def_map_does_not_pay_for_the_crate_data_it_borrows() {
    /// `(block def map, crate def map)` for a fixture whose `$0` sits inside a
    /// block expression.
    fn heaps(ra_fixture: &str) -> (usize, usize) {
        let (tools, items) = scan(ra_fixture);
        let data = crate_data(tools);
        let block = resolved(Some(0), items.iter().filter(|item| item.depth > 0), &data);
        let krate = resolved(None, items.iter().filter(|item| item.depth == 0), &data);
        (block.heap_size().unwrap(), krate.heap_size().unwrap())
    }

    let (plain_block, plain_crate) = heaps(
        r#"
//- /lib.rs
fn f() {
    {
        fn inside_the_block() { $0 }
    }
}
"#,
    );
    let (loaded_block, loaded_crate) = heaps(
        r#"
//- /lib.rs
#![register_tool(one)]
#![register_tool(two)]
#![register_tool(three)]
#![register_tool(four)]
#![register_tool(five)]
#![register_tool(six)]
#![register_tool(seven)]
#![register_tool(eight)]
fn f() {
    {
        fn inside_the_block() { $0 }
    }
}
"#,
    );

    assert!(
        loaded_crate > plain_crate,
        "eight more registered tools did not move the crate def map ({plain_crate} bytes \
         either way), so the shared crate data is going uncounted by its one legitimate \
         owner and the assertion below proves nothing"
    );
    assert_eq!(
        plain_block, loaded_block,
        "the block def map moved with crate-wide data it only borrows an `Arc` to; every \
         block in the crate is now charged for the same allocation"
    );
}

fn lowered(ra_fixture: &str) -> ItemTree<Names> {
    let mut tree = ItemTree {
        top_level: Vec::new(),
        attrs: Vec::new(),
        vis: Vec::new(),
        big_data: Vec::new(),
        small_data: Vec::new(),
    };
    for (i, item) in scan(ra_fixture).1.iter().enumerate() {
        if item.depth == 0 {
            tree.top_level.push(i as u32);
        }
        if item.keyword == "mod" {
            tree.big_data.push([0; 4]);
        } else {
            tree.small_data.push([0; 2]);
        }
    }
    tree
}

/// Two assertions: the first alone stays green while only `top_level` is
/// counted, and the second keeps the top level at exactly one item.
#[test]
fn a_file_with_more_items_has_a_heavier_item_tree() {
    fn heap(ra_fixture: &str) -> usize {
        lowered(ra_fixture).heap_size().unwrap()
    }

    let structs =
        |count: usize| (0..count).map(|i| format!("struct S{i};\n")).collect::<String>();

    let one = heap("struct S;");
    let many = heap(&structs(200));
    assert!(
        many > one,
        "200 structs weighed no more than one ({one} bytes), so the tree's vectors are not \
         being counted"
    );

    let empty_module = heap("mod m {}");
    let loaded_module = heap(&format!("mod m {{\n{}}}", structs(200)));
    assert_eq!(lowered(&format!("mod m {{\n{}}}", structs(200))).top_level.len(), 1);
    assert!(
        loaded_module > empty_module,
        "200 items inside the file's single top-level `mod` weighed no more than an empty one \
         ({empty_module} bytes): only `top_level` is reaching the total, and the assertion \
         above cannot tell"
    );
}

/// Nearly everything a def map owns hangs off the item scopes of its modules,
/// which is the reason it is worth weighing at all.
#[test]
fn a_module_with_more_items_has_a_heavier_def_map() {
    fn heap(ra_fixture: &str) -> usize {
        let (tools, items) = scan(ra_fixture);
        resolved(None, items.iter(), &crate_data(tools)).heap_size().unwrap()
    }

    let one = heap("//- /lib.rs\nstruct S;");
    let many = heap(&format!(
        "//- /lib.rs\n{}",
        (0..200).map(|i| format!("struct S{i};\n")).collect::<String>()
    ));

    assert!(
        many > one,
        "200 declarations weighed no more than one ({one} bytes): the module scopes are not \
         reaching the total"
    );
}

#[test]
fn a_crate_pays_for_its_data_in_full() {
    let data = crate_data(vec!["a".to_string(), "b".to_string()]);
    let tools = data.registered_tools.capacity() * size_of::<String>();
    let block = resolved(Some(7), [].iter(), &data);
    let krate = resolved(None, [].iter(), &data);
    let shared = size_of::<DefMapCrateData<Names>>() + tools;
    assert!(tools >= 2 * size_of::<String>());
    assert_eq!(def_map(&krate).unwrap(), def_map(&block).unwrap() + shared);
    assert_eq!(def_map(&block), index_map(&block.modules));
}

#[test]
fn a_def_map_is_the_sum_of_its_parts() {
    let mut items = Vec::new();
    items.push(Item { depth: 0, keyword: "struct".to_string(), name: "S".to_string() });
    let mut map = resolved(Some(0), items.iter(), &crate_data(Vec::new()));
    map.macro_use_prelude.insert("m".to_string(), 1);
    map.diagnostics.push(1);
    map.modules[0].scope.unresolved.insert("u".to_string());
    map.modules[0].scope.impls.push(3);
    let scope = &map.modules[0].scope;
    let word = size_of::<usize>();
    let names = (scope.types.capacity() + scope.values.capacity() + scope.macros.capacity())
        * (word + size_of::<String>() + 8);
    let module = names
        + scope.unresolved.capacity() * (size_of::<String>() + 1)
        + (scope.declarations.capacity() + scope.impls.capacity()) * 8;
    let expected = map.modules.capacity() * (word + 4 + size_of::<ModuleData<Names>>())
        + module
        + map.macro_use_prelude.capacity() * (size_of::<(String, u64)>() + 1)
        + map.diagnostics.capacity() * 2;
    assert_eq!(map.heap_size(), Some(expected));

    let mut local: LocalDefMap<Names> = LocalDefMap { extern_prelude: FxIndexMap::default() };
    local.extern_prelude.insert("std".to_string(), 1);
    let prelude = local.extern_prelude.capacity() * (word + size_of::<String>() + 4);
    assert_eq!(local.heap_size(), Some(prelude));
    assert_eq!(def_map_pair(&(map, local)), Some(expected + prelude));
}

#[test]
fn an_item_tree_is_five_vectors() {
    let mut tree = lowered("mod m {}\nstruct S;");
    tree.attrs.push(1);
    tree.vis.push(1);
    let expected = tree.top_level.capacity() * 4
        + tree.attrs.capacity() * 8
        + tree.vis.capacity()
        + tree.big_data.capacity() * 32
        + tree.small_data.capacity() * 16;
    assert!(expected >= 2 * 4 + 8 + 1 + 32 + 16);
    assert_eq!(item_tree(&tree), Some(expected));
    assert_eq!(
        file_item_tree(&Some(Box::new(tree))),
        Some(size_of::<ItemTree<Names>>() + expected)
    );
    assert_eq!(file_item_tree::<Names>(&None), Some(0));
}
