# heap_size

How many bytes a memoized value keeps on the heap: parsed files, macro
expansions, bodies and signatures, item trees, def maps and inference results.

The library under `src/` is verified with Verus. Every count is an
`Option<usize>`, and `None` means that the number of bytes does not fit.

| Module | What it weighs |
| --- | --- |
| `weight` | byte counts and how they add up |
| `containers` | arenas, maps, sets, slices, vectors and boxes |
| `green`, `sharing` | green trees, each allocation once |
| `syntax`, `expand` | parses and macro expansions |
| `expr_store`, `signatures` | bodies and signatures with their source maps |
| `item_tree`, `def_map` | items, and the names they resolve to |
| `infer` | what type inference leaves behind |
| `build_info` | the lines a build script prints about the commit |

`app/` is the build script that asks git and prints those lines.

The element types of the stores belong to whoever fills them. They enter as the
associated types of `Hir`, `Inference`, `Items` and `NameResolution`, and nothing
here looks inside an element.
