//! The text rendering of the index as an indented tree, used as the header of
//! every export.
use vstd::prelude::*;

use crate::models::FileNode;
use crate::sort::{sort_items, sorted_spec};

verus! {

/// A node without a parent (or with an empty parent id) is a root of the tree.
pub open spec fn is_tree_root(n: FileNode) -> bool {
    match n.parent_id {
        Some(p) => p@.len() == 0,
        None => true,
    }
}

/// The roots of the index, in index order.
pub open spec fn roots_spec(nodes: Seq<FileNode>) -> Seq<FileNode>
    decreases nodes.len(),
{
    if nodes.len() == 0 {
        Seq::empty()
    } else {
        let rest = roots_spec(nodes.drop_last());
        if is_tree_root(nodes.last()) {
            rest.push(nodes.last())
        } else {
            rest
        }
    }
}

/// The nodes whose parent id is `id`, in index order.
pub open spec fn children_spec(nodes: Seq<FileNode>, id: Seq<char>) -> Seq<FileNode>
    decreases nodes.len(),
{
    if nodes.len() == 0 {
        Seq::empty()
    } else {
        let rest = children_spec(nodes.drop_last(), id);
        if nodes.last().parent_id matches Some(p) && p@ == id {
            rest.push(nodes.last())
        } else {
            rest
        }
    }
}

/// One line of the tree: indentation, branch, selection marker, a folder mark
/// for directories, and the name.
pub open spec fn tree_line(n: FileNode, prefix: Seq<char>, is_last: bool) -> Seq<char> {
    prefix + (if is_last {
        "└── "@
    } else {
        "├── "@
    }) + (if n.selected {
        "[✓]"@
    } else {
        "[ ]"@
    }) + " "@ + (if n.is_directory {
        "▶ "@
    } else {
        ""@
    }) + n.name@
}

/// The indentation below a node.
pub open spec fn child_prefix(prefix: Seq<char>, is_last: bool) -> Seq<char> {
    prefix + if is_last {
        "    "@
    } else {
        "│   "@
    }
}

/// A directory shows its children when it is expanded or selected.
pub open spec fn shows_children(n: FileNode) -> bool {
    n.is_directory && (n.expanded || n.selected)
}

/// The lines of one node and, when it shows them, of its children, sorted.
/// `fuel` bounds the depth (a well-formed index never exhausts it).
pub open spec fn render_node(
    nodes: Seq<FileNode>,
    n: FileNode,
    prefix: Seq<char>,
    is_last: bool,
    fuel: nat,
) -> Seq<Seq<char>>
    decreases fuel, 0nat,
{
    if shows_children(n) && fuel > 0 {
        seq![tree_line(n, prefix, is_last)] + render_list(
            nodes,
            sorted_spec(children_spec(nodes, n.id@)),
            child_prefix(prefix, is_last),
            (fuel - 1) as nat,
        )
    } else {
        seq![tree_line(n, prefix, is_last)]
    }
}

/// The lines of a list of siblings; the last one gets the closing branch.
pub open spec fn render_list(
    nodes: Seq<FileNode>,
    items: Seq<FileNode>,
    prefix: Seq<char>,
    fuel: nat,
) -> Seq<Seq<char>>
    decreases fuel, items.len() + 1,
{
    if items.len() == 0 {
        Seq::empty()
    } else {
        render_node(nodes, items[0], prefix, items.len() == 1, fuel) + render_list(
            nodes,
            items.drop_first(),
            prefix,
            fuel,
        )
    }
}

/// Lines separated by newlines.
pub open spec fn joined(lines: Seq<Seq<char>>) -> Seq<char>
    decreases lines.len(),
{
    if lines.len() == 0 {
        Seq::empty()
    } else if lines.len() == 1 {
        lines[0]
    } else {
        joined(lines.drop_last()) + seq!['\n'] + lines.last()
    }
}

/// The tree text of an index: its roots sorted, each rendered with its shown
/// descendants.
pub open spec fn tree_text(nodes: Seq<FileNode>) -> Seq<char> {
    joined(render_list(nodes, sorted_spec(roots_spec(nodes)), Seq::empty(), nodes.len()))
}

pub open spec fn lines_view(lines: Seq<String>) -> Seq<Seq<char>> {
    lines.map_values(|s: String| s@)
}

fn roots_of(nodes: &Vec<FileNode>) -> (r: Vec<FileNode>)
    ensures
        r@ == roots_spec(nodes@),
{
    let mut r: Vec<FileNode> = Vec::new();
    let mut i: usize = 0;
    while i < nodes.len()
        invariant
            i <= nodes.len(),
            r@ == roots_spec(nodes@.take(i as int)),
        decreases nodes.len() - i,
    {
        assert(nodes@.take(i + 1).drop_last() =~= nodes@.take(i as int));
        let root = match &nodes[i].parent_id {
            Some(p) => p.as_str().is_empty(),
            None => true,
        };
        if root {
            r.push(nodes[i].duplicate());
        }
        i = i + 1;
    }
    assert(nodes@.take(nodes.len() as int) =~= nodes@);
    r
}

fn children_of(nodes: &Vec<FileNode>, id: &String) -> (r: Vec<FileNode>)
    ensures
        r@ == children_spec(nodes@, id@),
{
    let mut r: Vec<FileNode> = Vec::new();
    let mut i: usize = 0;
    while i < nodes.len()
        invariant
            i <= nodes.len(),
            r@ == children_spec(nodes@.take(i as int), id@),
        decreases nodes.len() - i,
    {
        assert(nodes@.take(i + 1).drop_last() =~= nodes@.take(i as int));
        let child = match &nodes[i].parent_id {
            Some(p) => *p == *id,
            None => false,
        };
        if child {
            r.push(nodes[i].duplicate());
        }
        i = i + 1;
    }
    assert(nodes@.take(nodes.len() as int) =~= nodes@);
    r
}

fn line_of(n: &FileNode, prefix: &String, is_last: bool) -> (r: String)
    ensures
        r@ == tree_line(*n, prefix@, is_last),
{
    let mut s = prefix.clone();
    s.append(
        if is_last {
            "└── "
        } else {
            "├── "
        },
    );
    s.append(
        if n.selected {
            "[✓]"
        } else {
            "[ ]"
        },
    );
    s.append(" ");
    s.append(
        if n.is_directory {
            "▶ "
        } else {
            ""
        },
    );
    s.append(n.name.as_str());
    s
}

fn render_node_into(
    nodes: &Vec<FileNode>,
    n: &FileNode,
    prefix: &String,
    is_last: bool,
    fuel: usize,
    lines: &mut Vec<String>,
)
    ensures
        lines_view(final(lines)@) == lines_view(old(lines)@) + render_node(
            nodes@,
            *n,
            prefix@,
            is_last,
            fuel as nat,
        ),
    decreases fuel, 0nat,
{
    let ghost start = lines_view(lines@);
    let line = line_of(n, prefix, is_last);
    lines.push(line);
    assert(lines_view(lines@) =~= start + seq![tree_line(*n, prefix@, is_last)]);
    if n.is_directory && (n.expanded || n.selected) && fuel > 0 {
        let children = sort_items(children_of(nodes, &n.id));
        let mut next = prefix.clone();
        next.append(
            if is_last {
                "    "
            } else {
                "│   "
            },
        );
        render_list_into(nodes, &children, &next, fuel - 1, lines);
        assert(lines_view(lines@) =~= start + render_node(nodes@, *n, prefix@, is_last, fuel as nat));
    } else {
        assert(lines_view(lines@) =~= start + render_node(nodes@, *n, prefix@, is_last, fuel as nat));
    }
}

fn render_list_into(
    nodes: &Vec<FileNode>,
    items: &Vec<FileNode>,
    prefix: &String,
    fuel: usize,
    lines: &mut Vec<String>,
)
    ensures
        lines_view(final(lines)@) == lines_view(old(lines)@) + render_list(
            nodes@,
            items@,
            prefix@,
            fuel as nat,
        ),
    decreases fuel, items@.len() + 1,
{
    let ghost start = lines_view(lines@);
    let ghost total = render_list(nodes@, items@, prefix@, fuel as nat);
    let mut i: usize = 0;
    assert(items@.skip(0) =~= items@);
    assert(start + total =~= lines_view(lines@) + render_list(nodes@, items@.skip(0), prefix@, fuel as nat));
    while i < items.len()
        invariant
            i <= items.len(),
            start + total == lines_view(lines@) + render_list(
                nodes@,
                items@.skip(i as int),
                prefix@,
                fuel as nat,
            ),
        decreases items.len() - i,
    {
        let ghost rest = items@.skip(i as int);
        assert(rest[0] == items@[i as int]);
        assert(rest.drop_first() =~= items@.skip(i + 1));
        let ghost before = lines_view(lines@);
        render_node_into(nodes, &items[i], prefix, i + 1 == items.len(), fuel, lines);
        assert(before + render_list(nodes@, rest, prefix@, fuel as nat) =~= lines_view(lines@)
            + render_list(nodes@, items@.skip(i + 1), prefix@, fuel as nat));
        i = i + 1;
    }
    assert(items@.skip(i as int) =~= Seq::<FileNode>::empty());
    assert(lines_view(lines@) + Seq::<Seq<char>>::empty() =~= lines_view(lines@));
}

fn join_lines(lines: &Vec<String>) -> (r: String)
    ensures
        r@ == joined(lines_view(lines@)),
{
    let mut r = String::new();
    let mut i: usize = 0;
    while i < lines.len()
        invariant
            i <= lines.len(),
            r@ == joined(lines_view(lines@.take(i as int))),
        decreases lines.len() - i,
    {
        assert(lines_view(lines@.take(i + 1)).drop_last() =~= lines_view(lines@.take(i as int)));
        if i > 0 {
            r.append("\n");
            proof {
                reveal_strlit("\n");
            }
        }
        r.append(lines[i].as_str());
        proof {
            if i == 0 {
                assert(r@ =~= lines_view(lines@.take(1))[0]);
            } else {
                assert(r@ =~= joined(lines_view(lines@.take(i as int))) + seq!['\n'] + lines@[i as int]@);
            }
        }
        i = i + 1;
    }
    assert(lines@.take(lines.len() as int) =~= lines@);
    r
}

/// Renders the whole index as a tree: roots and, at every level, siblings
/// sorted directories first, then by name; each line shows the selection
/// marker; a directory shows its children when expanded or selected.
pub fn build_tree_structure(nodes: &Vec<FileNode>, _root_path: &str) -> (r: String)
    ensures
        r@ == tree_text(nodes@),
{
    let roots = sort_items(roots_of(nodes));
    let mut lines: Vec<String> = Vec::new();
    let prefix = String::new();
    assert(lines_view(lines@) =~= Seq::<Seq<char>>::empty());
    render_list_into(nodes, &roots, &prefix, nodes.len(), &mut lines);
    assert(lines_view(lines@) =~= render_list(nodes@, roots@, Seq::empty(), nodes.len() as nat));
    join_lines(&lines)
}

} // verus!
