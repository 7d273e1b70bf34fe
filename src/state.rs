//! The node index and the process-wide state around it, with the selection
//! and expansion edits that callers make on it.
use vstd::prelude::*;

use crate::config::lowercase;
use crate::config::lower_of;
use crate::models::FileNode;
use crate::text::{chars_match_at, chars_of, has_prefix, occurs_in, str_contains};

verus! {

/// Shared state: the node index, the scan root, the last export and the
/// current scan epoch.
pub struct AppState {
    /// The node index; each id occurs once.
    pub nodes: Vec<FileNode>,
    pub root_path: Option<String>,
    /// Full text of the most recent export.
    pub last_generated_content: Option<String>,
    /// Incremented at the start of every full scan.
    pub current_scan_id: u32,
}

pub open spec fn ids_unique(nodes: Seq<FileNode>) -> bool {
    forall|i: int, j: int| 0 <= i < nodes.len() && 0 <= j < nodes.len() && i != j ==> nodes[i].id@ != nodes[j].id@
}

/// Some node of `nodes` has this id.
pub open spec fn has_id(nodes: Seq<FileNode>, id: Seq<char>) -> bool {
    exists|k: int| 0 <= k < nodes.len() && nodes[k].id@ == id
}

/// Every parent reference names a directory of the same index.
pub open spec fn parents_present(nodes: Seq<FileNode>) -> bool {
    forall|i: int|
        0 <= i < nodes.len() && (#[trigger] nodes[i]).parent_id is Some ==> exists|k: int|
            0 <= k < nodes.len() && nodes[k].id@ == nodes[i].parent_id->0@ && nodes[k].is_directory
}

/// A well-formed index.
pub open spec fn index_wf(nodes: Seq<FileNode>) -> bool {
    ids_unique(nodes) && parents_present(nodes)
}

/// `key` lies strictly below the directory `dir`: it starts with `dir` and a
/// path separator.
pub open spec fn strictly_below(key: Seq<char>, dir: Seq<char>) -> bool {
    has_prefix(key, dir.push('/'))
}

/// The nodes that `update_selection(id, _)` sets: the node itself and, when it
/// is a directory, every node whose id lies strictly below it.
pub open spec fn selection_reaches(nodes: Seq<FileNode>, id: Seq<char>, i: int) -> bool {
    exists|t: int|
        0 <= t < nodes.len() && nodes[t].id@ == id && (nodes[i].id@ == id || (
        nodes[t].is_directory && strictly_below(nodes[i].id@, id)))
}

/// The index after `update_selection(id, selected)`.
pub open spec fn selection_applied(nodes: Seq<FileNode>, id: Seq<char>, selected: bool) -> Seq<FileNode> {
    Seq::new(
        nodes.len(),
        |i: int|
            if selection_reaches(nodes, id, i) {
                with_selected(nodes[i], selected)
            } else {
                nodes[i]
            },
    )
}

pub open spec fn with_selected(n: FileNode, selected: bool) -> FileNode {
    FileNode { selected: selected, ..n }
}

pub open spec fn with_expanded(n: FileNode, expanded: bool) -> FileNode {
    FileNode { expanded: expanded, ..n }
}

/// Keeps parent references valid when only flags change.
proof fn lemma_flags_keep_wf(old_nodes: Seq<FileNode>, new_nodes: Seq<FileNode>)
    requires
        index_wf(old_nodes),
        new_nodes.len() == old_nodes.len(),
        forall|i: int|
            0 <= i < old_nodes.len() ==> {
                &&& (#[trigger] new_nodes[i]).id == old_nodes[i].id
                &&& new_nodes[i].parent_id == old_nodes[i].parent_id
                &&& new_nodes[i].is_directory == old_nodes[i].is_directory
            },
    ensures
        index_wf(new_nodes),
{
    assert forall|i: int|
        0 <= i < new_nodes.len() && (#[trigger] new_nodes[i]).parent_id is Some implies exists|k: int|
            0 <= k < new_nodes.len() && new_nodes[k].id@ == new_nodes[i].parent_id->0@
                && new_nodes[k].is_directory by {
        let k = choose|k: int|
            0 <= k < old_nodes.len() && old_nodes[k].id@ == old_nodes[i].parent_id->0@
                && old_nodes[k].is_directory;
        assert(new_nodes[k].id == old_nodes[k].id);
    }
}

/// The index of the node with this id, if there is one.
pub fn find_node(nodes: &Vec<FileNode>, id: &str) -> (r: Option<usize>)
    ensures
        r matches Some(k) ==> k < nodes.len() && nodes@[k as int].id@ == id@,
        r is None ==> !has_id(nodes@, id@),
{
    let mut k: usize = 0;
    while k < nodes.len()
        invariant
            k <= nodes.len(),
            forall|j: int| 0 <= j < k ==> nodes@[j].id@ != id@,
        decreases nodes.len() - k,
    {
        if crate::text::str_equals(nodes[k].id.as_str(), id) {
            return Some(k);
        }
        k = k + 1;
    }
    None
}

/// The index of the node with this id, if there is one.
pub fn position_of(nodes: &Vec<FileNode>, id: &String) -> (r: Option<usize>)
    ensures
        r matches Some(k) ==> k < nodes.len() && nodes@[k as int].id@ == id@,
        r is None ==> !has_id(nodes@, id@),
{
    let mut k: usize = 0;
    while k < nodes.len()
        invariant
            k <= nodes.len(),
            forall|j: int| 0 <= j < k ==> nodes@[j].id@ != id@,
        decreases nodes.len() - k,
    {
        if nodes[k].id == *id {
            return Some(k);
        }
        k = k + 1;
    }
    None
}

/// Whether `key` starts with the characters `prefix`.
fn starts_with_chars(key: &String, prefix: &Vec<char>) -> (r: bool)
    ensures
        r == has_prefix(key@, prefix@),
{
    let kc = chars_of(key.as_str());
    chars_match_at(&kc, prefix, 0)
}

impl AppState {
    pub fn new() -> (r: AppState)
        ensures
            r.nodes@.len() == 0,
            r.root_path is None,
            r.last_generated_content is None,
            r.current_scan_id == 0,
    {
        AppState {
            nodes: Vec::new(),
            root_path: None,
            last_generated_content: None,
            current_scan_id: 0,
        }
    }

    pub open spec fn wf(&self) -> bool {
        index_wf(self.nodes@)
    }
}

/// Sets `selected` on the node `id` and, when it is a directory, on every node
/// strictly below it. An unknown id changes nothing.
pub fn update_selection(state: &mut AppState, id: &str, selected: bool)
    requires
        old(state).wf(),
    ensures
        final(state).wf(),
        final(state).root_path == old(state).root_path,
        final(state).last_generated_content == old(state).last_generated_content,
        final(state).current_scan_id == old(state).current_scan_id,
        final(state).nodes@ == selection_applied(old(state).nodes@, id@, selected),
        forall|i: int|
            0 <= i < old(state).nodes@.len() ==> #[trigger] final(state).nodes@[i] == if selection_reaches(
                old(state).nodes@,
                id@,
                i,
            ) {
                with_selected(old(state).nodes@[i], selected)
            } else {
                old(state).nodes@[i]
            },
{
    let ghost old_nodes = state.nodes@;
    let ghost old_state = *state;
    let t = match find_node(&state.nodes, id) {
        Some(t) => t,
        None => {
            assert forall|i: int| 0 <= i < old_nodes.len() implies !selection_reaches(
                old_nodes,
                id@,
                i,
            ) by {}
            assert(state.nodes@ =~= selection_applied(old_nodes, id@, selected));
            return ;
        },
    };
    let is_dir = state.nodes[t].is_directory;
    let mut prefix = chars_of(id);
    prefix.push('/');
    let n = state.nodes.len();
    let mut i: usize = 0;
    while i < n
        invariant
            n == state.nodes@.len(),
            n == old_nodes.len(),
            i <= n,
            state.root_path == old_state.root_path,
            state.last_generated_content == old_state.last_generated_content,
            state.current_scan_id == old_state.current_scan_id,
            t < n,
            index_wf(old_nodes),
            old_nodes[t as int].id@ == id@,
            is_dir == old_nodes[t as int].is_directory,
            prefix@ == id@.push('/'),
            forall|j: int|
                0 <= j < n ==> #[trigger] state.nodes@[j] == if j < i && selection_reaches(
                    old_nodes,
                    id@,
                    j,
                ) {
                    with_selected(old_nodes[j], selected)
                } else {
                    old_nodes[j]
                },
        decreases n - i,
    {
        let same = crate::text::str_equals(state.nodes[i].id.as_str(), id);
        let hit = same || (is_dir && starts_with_chars(&state.nodes[i].id, &prefix));
        proof {
            assert(hit == selection_reaches(old_nodes, id@, i as int)) by {
                if selection_reaches(old_nodes, id@, i as int) {
                    let t2 = choose|t2: int|
                        0 <= t2 < old_nodes.len() && old_nodes[t2].id@ == id@ && (
                        old_nodes[i as int].id@ == id@ || (old_nodes[t2].is_directory
                            && strictly_below(old_nodes[i as int].id@, id@)));
                    assert(t2 == t);
                }
            }
        }
        if hit {
            state.nodes[i].selected = selected;
        }
        i = i + 1;
    }
    proof {
        lemma_flags_keep_wf(old_nodes, state.nodes@);
        assert(state.nodes@ =~= selection_applied(old_nodes, id@, selected));
    }
}

/// Deselecting a directory clears `selected` on the directory and on every node
/// whose id starts with the directory's id and a separator, and leaves every
/// other node as it was.
pub proof fn lemma_deselect_directory_scope(nodes: Seq<FileNode>, t: int)
    requires
        index_wf(nodes),
        0 <= t < nodes.len(),
        nodes[t].is_directory,
    ensures
        forall|i: int|
            0 <= i < nodes.len() && (i == t || strictly_below(nodes[i].id@, nodes[t].id@))
                ==> !(#[trigger] selection_applied(nodes, nodes[t].id@, false)[i]).selected,
        forall|i: int|
            0 <= i < nodes.len() && i != t && !strictly_below(nodes[i].id@, nodes[t].id@)
                ==> #[trigger] selection_applied(nodes, nodes[t].id@, false)[i] == nodes[i],
{
    let id = nodes[t].id@;
    assert forall|i: int|
        0 <= i < nodes.len() && i != t && !strictly_below(nodes[i].id@, id) implies !selection_reaches(
        nodes,
        id,
        i,
    ) by {
        if selection_reaches(nodes, id, i) {
            let t2 = choose|t2: int|
                0 <= t2 < nodes.len() && nodes[t2].id@ == id && (nodes[i].id@ == id || (
                nodes[t2].is_directory && strictly_below(nodes[i].id@, id)));
            assert(t2 == t);
        }
    }
    assert forall|i: int|
        0 <= i < nodes.len() && (i == t || strictly_below(nodes[i].id@, id)) implies selection_reaches(
        nodes,
        id,
        i,
    ) by {}
}

/// Sets `expanded` on the node `id` alone. An unknown id changes nothing.
pub fn toggle_expanded(state: &mut AppState, id: &str, expanded: bool)
    requires
        old(state).wf(),
    ensures
        final(state).wf(),
        final(state).root_path == old(state).root_path,
        final(state).last_generated_content == old(state).last_generated_content,
        final(state).current_scan_id == old(state).current_scan_id,
        final(state).nodes@.len() == old(state).nodes@.len(),
        forall|i: int|
            0 <= i < old(state).nodes@.len() ==> #[trigger] final(state).nodes@[i] == if old(
                state,
            ).nodes@[i].id@ == id@ {
                with_expanded(old(state).nodes@[i], expanded)
            } else {
                old(state).nodes@[i]
            },
{
    let ghost old_nodes = state.nodes@;
    let ghost old_state = *state;
    match find_node(&state.nodes, id) {
        Some(t) => {
            state.nodes[t].expanded = expanded;
            proof {
                assert forall|i: int| 0 <= i < old_nodes.len() && i != t implies old_nodes[i].id@ != id@ by {}
                lemma_flags_keep_wf(old_nodes, state.nodes@);
            }
        },
        None => {},
    }
}

/// Marks every file selected; directories keep their flag.
pub fn select_all(state: &mut AppState)
    requires
        old(state).wf(),
    ensures
        final(state).wf(),
        final(state).root_path == old(state).root_path,
        final(state).last_generated_content == old(state).last_generated_content,
        final(state).current_scan_id == old(state).current_scan_id,
        final(state).nodes@.len() == old(state).nodes@.len(),
        forall|i: int|
            0 <= i < old(state).nodes@.len() ==> #[trigger] final(state).nodes@[i] == if old(
                state,
            ).nodes@[i].is_directory {
                old(state).nodes@[i]
            } else {
                with_selected(old(state).nodes@[i], true)
            },
{
    let ghost old_nodes = state.nodes@;
    let ghost old_state = *state;
    let n = state.nodes.len();
    let mut i: usize = 0;
    while i < n
        invariant
            n == state.nodes@.len(),
            n == old_nodes.len(),
            i <= n,
            state.root_path == old_state.root_path,
            state.last_generated_content == old_state.last_generated_content,
            state.current_scan_id == old_state.current_scan_id,
            forall|j: int|
                0 <= j < n ==> #[trigger] state.nodes@[j] == if j < i
                    && !old_nodes[j].is_directory {
                    with_selected(old_nodes[j], true)
                } else {
                    old_nodes[j]
                },
        decreases n - i,
    {
        if !state.nodes[i].is_directory {
            state.nodes[i].selected = true;
        }
        i = i + 1;
    }
    proof {
        lemma_flags_keep_wf(old_nodes, state.nodes@);
    }
}

/// Clears the selection of every node, directories included.
pub fn deselect_all(state: &mut AppState)
    requires
        old(state).wf(),
    ensures
        final(state).wf(),
        final(state).root_path == old(state).root_path,
        final(state).last_generated_content == old(state).last_generated_content,
        final(state).current_scan_id == old(state).current_scan_id,
        final(state).nodes@.len() == old(state).nodes@.len(),
        forall|i: int|
            0 <= i < old(state).nodes@.len() ==> #[trigger] final(state).nodes@[i] == with_selected(
                old(state).nodes@[i],
                false,
            ),
{
    let ghost old_nodes = state.nodes@;
    let ghost old_state = *state;
    let n = state.nodes.len();
    let mut i: usize = 0;
    while i < n
        invariant
            n == state.nodes@.len(),
            n == old_nodes.len(),
            i <= n,
            state.root_path == old_state.root_path,
            state.last_generated_content == old_state.last_generated_content,
            state.current_scan_id == old_state.current_scan_id,
            forall|j: int|
                0 <= j < n ==> #[trigger] state.nodes@[j] == if j < i {
                    with_selected(old_nodes[j], false)
                } else {
                    old_nodes[j]
                },
        decreases n - i,
    {
        state.nodes[i].selected = false;
        i = i + 1;
    }
    proof {
        lemma_flags_keep_wf(old_nodes, state.nodes@);
    }
}

/// The nodes of the index, in index order.
pub fn get_tree(state: &AppState) -> (r: Vec<FileNode>)
    ensures
        r@ == state.nodes@,
{
    let mut r: Vec<FileNode> = Vec::new();
    let mut i: usize = 0;
    while i < state.nodes.len()
        invariant
            i <= state.nodes.len(),
            r@ == state.nodes@.take(i as int),
        decreases state.nodes.len() - i,
    {
        r.push(state.nodes[i].duplicate());
        i = i + 1;
        assert(r@ =~= state.nodes@.take(i as int));
    }
    assert(r@ =~= state.nodes@);
    r
}

/// The ids, in index order, of the nodes whose lower-cased name contains the
/// lower-cased query.
pub open spec fn search_hits(nodes: Seq<FileNode>, lower_query: Seq<char>) -> Seq<Seq<char>>
    decreases nodes.len(),
{
    if nodes.len() == 0 {
        Seq::empty()
    } else {
        let rest = search_hits(nodes.drop_last(), lower_query);
        if occurs_in(lower_of(nodes.last().name@), lower_query) {
            rest.push(nodes.last().id@)
        } else {
            rest
        }
    }
}

/// Ids of the nodes whose name contains `query`, compared without regard to case.
pub fn search_nodes(state: &AppState, query: &str) -> (r: Vec<String>)
    ensures
        r@.map_values(|s: String| s@) == search_hits(state.nodes@, lower_of(query@)),
{
    let q = lowercase(query);
    let mut r: Vec<String> = Vec::new();
    let mut i: usize = 0;
    while i < state.nodes.len()
        invariant
            i <= state.nodes.len(),
            q@ == lower_of(query@),
            r@.map_values(|s: String| s@) == search_hits(state.nodes@.take(i as int), q@),
        decreases state.nodes.len() - i,
    {
        let name = lowercase(state.nodes[i].name.as_str());
        assert(state.nodes@.take(i + 1).drop_last() =~= state.nodes@.take(i as int));
        if str_contains(name.as_str(), q.as_str()) {
            r.push(state.nodes[i].id.clone());
            assert(r@.map_values(|s: String| s@) =~= search_hits(state.nodes@.take(i as int), q@).push(
                state.nodes@[i as int].id@,
            ));
        }
        i = i + 1;
    }
    assert(state.nodes@.take(state.nodes.len() as int) =~= state.nodes@);
    r
}

} // verus!
