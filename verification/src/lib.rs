use vstd::prelude::*;

/// Sums, joins and extremes of sequences, and what is known of them.
pub mod seqs;
/// Texts: their characters, numbers in base ten, and comparison.
pub mod text;
/// Coordinates and rectangles in whole units.
pub mod geometry;

/// The tree: nodes that own their children, building, counting, folding.
pub mod data_tree;
/// Finding nodes by identifier, and changing the node that was found.
pub mod lookup;
/// The layout of a tree: levels along one axis, bands across it.
pub mod tree_layout;
/// What holds of every layout of a tree.
pub mod layout_laws;
/// What the layout reads of a tree: the visible nodes and the sizes of their boxes.
pub mod visible_part;
/// The identifiers of a tree, and what depends on nothing else.
pub mod node_names;
/// Compaction: positions along one axis for items that must not overlap.
pub mod spaced_layout;
/// What holds of every compaction.
pub mod spacing_laws;
/// A list of coordinates that keeps, of what it is given, what reaches lowest.
pub mod linked_y_list;

/// The use of a capability by the lines of business, and its colours.
pub mod used_by;
/// The use of a capability as three truth values, and its colours.
pub mod lob_usage;
/// The nodes that are shown folded at the start.
pub mod fold_up;
/// The rows of the workbook of capabilities, and what is looked up in them.
pub mod capability_db;
/// The trees of capabilities: their nodes, their layout, and the tables they are read from.
pub mod capability_tree;
/// What holds when a tree of capabilities is laid out again.
pub mod relayout_laws;
/// The list of surround systems beside the trees.
pub mod surrounds;
/// The lines between capabilities and surround systems.
pub mod connecting_lines;
/// The document: two trees, the list of surround systems, and the lines.
pub mod document;

/// The size of a text, as something outside the library finds it.
pub mod text_size;
/// Writing tags, one after the other, with their attributes.
pub mod svg_writer;
/// The dot between the two trees.
pub mod center_dot;
/// The pop-ups that show a capability or a surround system.
pub mod capability_html;
