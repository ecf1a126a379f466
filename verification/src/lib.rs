//! Weighing the heap that memoized values hang on to.
//!
//! A memory report can say how many values a query has memoized. What it needs
//! from here is how big they grew.
//!
//! # What the numbers mean
//!
//! They count the *owned buffers*: the arenas, maps, slices and tree nodes that
//! hang off a value. They leave out indirection inside an element, the padding
//! of a container's own layout and the headers of shared allocations. A caller
//! that compares two queries wants "at least this much"; bytes that do not exist
//! would move a query up the report.
//!
//! Every count is an `Option<usize>`: `None` says that the number of bytes does
//! not fit in a `usize`, and nothing else.
//!
//! # Shared allocations are charged to one owner
//!
//! Where one allocation hangs under many values, exactly one of them counts it:
//! a crate's def map counts the data that its block def maps borrow, and a green
//! tree counts an interned subtree once.
//!
//! # What the contracts say
//!
//! A count that the value alone decides is given exactly, by
//! [`weight::reports`]: a tree, a parse, an arena, an arena map, a slice. A count
//! that rests on how much room an allocator handed out is one of a set, by
//! [`weight::measures`]; the set is made of the answers that the containers of
//! the value may give.

pub mod build_info;
pub mod containers;
pub mod def_map;
pub mod expand;
pub mod expr_store;
pub mod green;
pub mod infer;
pub mod item_tree;
pub mod sharing;
pub mod signatures;
pub mod syntax;
pub mod weight;
