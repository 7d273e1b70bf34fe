//! The persisted selection record: a tree of per-path selection and expansion
//! flags, flattened before a scan and rebuilt from the index after an export.
use vstd::prelude::*;

use crate::models::FileNode;
use crate::state::{index_wf, position_of, AppState};
use crate::tree::{children_spec, roots_spec};

verus! {

/// One node of the persisted record; `path` is relative to the scan root.
#[derive(Debug)]
pub struct ConfigNode {
    pub name: String,
    pub path: String,
    pub is_directory: bool,
    pub selected: bool,
    pub expanded: bool,
    /// Absent (never empty) when the node has no children.
    pub children: Option<Vec<ConfigNode>>,
}

/// Restored flags of one relative path.
#[derive(Debug, Clone)]
pub struct PriorEntry {
    pub path: String,
    pub selected: bool,
    pub expanded: bool,
}

/// The record's entries in pre-order: each node, then its children, then the
/// following siblings.
pub open spec fn flatten_spec(nodes: Seq<ConfigNode>) -> Seq<(Seq<char>, bool, bool)>
    decreases nodes,
{
    if nodes.len() == 0 {
        Seq::empty()
    } else {
        let n = nodes[0];
        let below = match n.children {
            Some(c) => {
                proof {
                    assert(decreases_to!(nodes => nodes[0]));
                    assert(decreases_to!(n.children => n.children->0));
                    assert(decreases_to!(c => c@));
                }
                flatten_spec(c@)
            },
            None => Seq::empty(),
        };
        seq![(n.path@, n.selected, n.expanded)] + below + flatten_spec(nodes.drop_first())
    }
}

} // verus!

verus! {

pub open spec fn prior_view(s: Seq<PriorEntry>) -> Seq<(Seq<char>, bool, bool)> {
    s.map_values(|e: PriorEntry| (e.path@, e.selected, e.expanded))
}

proof fn lemma_flatten_append(a: Seq<ConfigNode>, b: Seq<ConfigNode>)
    ensures
        flatten_spec(a + b) == flatten_spec(a) + flatten_spec(b),
    decreases a.len(),
{
    if a.len() == 0 {
        assert(a + b =~= b);
        assert(flatten_spec(a) + flatten_spec(b) =~= flatten_spec(b));
    } else {
        assert((a + b).drop_first() =~= a.drop_first() + b);
        assert((a + b)[0] == a[0]);
        lemma_flatten_append(a.drop_first(), b);
        let n = a[0];
        let below = match n.children {
            Some(c) => flatten_spec(c@),
            None => Seq::empty(),
        };
        assert(flatten_spec(a + b) =~= seq![(n.path@, n.selected, n.expanded)] + below + (
        flatten_spec(a.drop_first()) + flatten_spec(b)));
        assert(flatten_spec(a) =~= seq![(n.path@, n.selected, n.expanded)] + below + flatten_spec(
            a.drop_first(),
        ));
    }
}

/// Appends the record's entries to `map` in pre-order; a later entry for the
/// same path takes precedence over an earlier one (see `prior_lookup`).
pub fn flatten_config_state(nodes: &Vec<ConfigNode>, map: &mut Vec<PriorEntry>)
    ensures
        prior_view(final(map)@) == prior_view(old(map)@) + flatten_spec(nodes@),
    decreases nodes@,
{
    let ghost start = prior_view(map@);
    let mut i: usize = 0;
    assert(nodes@.take(0) =~= Seq::<ConfigNode>::empty());
    assert(start + Seq::empty() =~= start);
    while i < nodes.len()
        invariant
            i <= nodes.len(),
            prior_view(map@) == start + flatten_spec(nodes@.take(i as int)),
        decreases nodes.len() - i,
    {
        let n = &nodes[i];
        let ghost before = prior_view(map@);
        map.push(PriorEntry { path: n.path.clone(), selected: n.selected, expanded: n.expanded });
        assert(prior_view(map@) =~= before.push((n.path@, n.selected, n.expanded)));
        match &n.children {
            Some(c) => {
                assert(decreases_to!(nodes@ => nodes@[i as int]));
                assert(decreases_to!(nodes@[i as int] => nodes@[i as int].children));
                assert(decreases_to!(nodes@[i as int].children => nodes@[i as int].children->0));
                assert(decreases_to!(*c => c@));
                flatten_config_state(c, map);
            },
            None => {},
        }
        proof {
            let nd = nodes@[i as int];
            let below = match nd.children {
                Some(c) => flatten_spec(c@),
                None => Seq::empty(),
            };
            let one = seq![nodes@[i as int]];
            assert(one.drop_first() =~= Seq::<ConfigNode>::empty());
            assert(flatten_spec(one.drop_first()) == Seq::<(Seq<char>, bool, bool)>::empty());
            assert(one[0] == nd);
            assert(flatten_spec(one) =~= seq![(n.path@, n.selected, n.expanded)] + below);
            assert(nodes@.take(i + 1) =~= nodes@.take(i as int) + one);
            lemma_flatten_append(nodes@.take(i as int), one);
            assert(prior_view(map@) =~= start + flatten_spec(nodes@.take(i + 1)));
        }
        i = i + 1;
    }
    assert(nodes@.take(nodes.len() as int) =~= nodes@);
}

/// The flags last recorded for `id`: later entries override earlier ones.
pub open spec fn prior_lookup(entries: Seq<(Seq<char>, bool, bool)>, id: Seq<char>) -> Option<
    (bool, bool),
>
    decreases entries.len(),
{
    if entries.len() == 0 {
        None
    } else if entries.last().0 == id {
        Some((entries.last().1, entries.last().2))
    } else {
        prior_lookup(entries.drop_last(), id)
    }
}

pub fn lookup_prior(entries: &Vec<PriorEntry>, id: &String) -> (r: Option<(bool, bool)>)
    ensures
        r == prior_lookup(prior_view(entries@), id@),
{
    let mut i: usize = entries.len();
    assert(prior_view(entries@).take(i as int) =~= prior_view(entries@));
    while i > 0
        invariant
            i <= entries.len(),
            prior_lookup(prior_view(entries@), id@) == prior_lookup(
                prior_view(entries@).take(i as int),
                id@,
            ),
        decreases i,
    {
        assert(prior_view(entries@).take(i as int).drop_last() =~= prior_view(entries@).take(
            i - 1,
        ));
        if entries[i - 1].path == *id {
            return Some((entries[i - 1].selected, entries[i - 1].expanded));
        }
        i = i - 1;
    }
    None
}

/// `c` records `n` and, `depth` levels down, its descendants: children in
/// index order, and no child list where there are none (or where the depth
/// runs out).
pub open spec fn represents(nodes: Seq<FileNode>, c: ConfigNode, n: FileNode, depth: nat) -> bool
    decreases depth,
{
    &&& c.name@ == n.name@
    &&& c.path@ == n.relative_path@
    &&& c.is_directory == n.is_directory
    &&& c.selected == n.selected
    &&& c.expanded == n.expanded
    &&& if depth == 0 || children_spec(nodes, n.id@).len() == 0 {
        c.children is None
    } else {
        let kids = children_spec(nodes, n.id@);
        &&& c.children is Some
        &&& c.children->0@.len() == kids.len()
        &&& forall|i: int|
            0 <= i < kids.len() ==> represents(
                nodes,
                #[trigger] c.children->0@[i],
                kids[i],
                (depth - 1) as nat,
            )
    }
}

fn children_of_node(nodes: &Vec<FileNode>, id: &String) -> (r: Vec<FileNode>)
    ensures
        r@ == children_spec(nodes@, id@),
{
    let mut r: Vec<FileNode> = Vec::new();
    let mut i: usize = 0;
    while i < nodes.len()
        invariant
            i <= nodes.len(),
            r@ == children_spec(nodes@.take(i as int), id@),
        decreases nodes.len() - i,
    {
        assert(nodes@.take(i + 1).drop_last() =~= nodes@.take(i as int));
        let child = match &nodes[i].parent_id {
            Some(p) => *p == *id,
            None => false,
        };
        if child {
            r.push(nodes[i].duplicate());
        }
        i = i + 1;
    }
    assert(nodes@.take(nodes.len() as int) =~= nodes@);
    r
}

fn config_subtree(node: &FileNode, nodes: &Vec<FileNode>, depth: usize) -> (r: ConfigNode)
    ensures
        represents(nodes@, r, *node, depth as nat),
    decreases depth,
{
    let kids = children_of_node(nodes, &node.id);
    let children = if depth == 0 || kids.len() == 0 {
        None
    } else {
        let mut out: Vec<ConfigNode> = Vec::new();
        let mut i: usize = 0;
        while i < kids.len()
            invariant
                i <= kids.len(),
                depth > 0,
                kids@ == children_spec(nodes@, node.id@),
                out@.len() == i,
                forall|j: int|
                    0 <= j < i ==> represents(nodes@, #[trigger] out@[j], kids@[j], (depth - 1) as nat),
            decreases kids.len() - i,
        {
            let c = config_subtree(&kids[i], nodes, depth - 1);
            out.push(c);
            i = i + 1;
        }
        Some(out)
    };
    ConfigNode {
        name: node.name.clone(),
        path: node.relative_path.clone(),
        is_directory: node.is_directory,
        selected: node.selected,
        expanded: node.expanded,
        children,
    }
}

/// The record of `node` and its descendants in the index.
pub fn file_node_to_config_node(node: &FileNode, nodes: &Vec<FileNode>) -> (r: ConfigNode)
    ensures
        represents(nodes@, r, *node, nodes@.len()),
{
    config_subtree(node, nodes, nodes.len())
}

/// The record of the whole index: one tree per root, in index order.
pub fn selection_record(nodes: &Vec<FileNode>) -> (r: Vec<ConfigNode>)
    ensures
        r@.len() == roots_spec(nodes@).len(),
        forall|i: int|
            0 <= i < r@.len() ==> represents(nodes@, #[trigger] r@[i], roots_spec(nodes@)[i], nodes@.len()),
{
    let mut roots: Vec<FileNode> = Vec::new();
    let mut i: usize = 0;
    while i < nodes.len()
        invariant
            i <= nodes.len(),
            roots@ == roots_spec(nodes@.take(i as int)),
        decreases nodes.len() - i,
    {
        assert(nodes@.take(i + 1).drop_last() =~= nodes@.take(i as int));
        let root = match &nodes[i].parent_id {
            Some(p) => p.as_str().is_empty(),
            None => true,
        };
        if root {
            roots.push(nodes[i].duplicate());
        }
        i = i + 1;
    }
    assert(nodes@.take(nodes.len() as int) =~= nodes@);
    let mut r: Vec<ConfigNode> = Vec::new();
    let mut j: usize = 0;
    while j < roots.len()
        invariant
            j <= roots.len(),
            roots@ == roots_spec(nodes@),
            r@.len() == j,
            forall|k: int|
                0 <= k < j ==> represents(nodes@, #[trigger] r@[k], roots@[k], nodes@.len()),
        decreases roots.len() - j,
    {
        let c = file_node_to_config_node(&roots[j], nodes);
        r.push(c);
        j = j + 1;
    }
    r
}

/// Relies on `Path::join` (with `PathBuf::from` and `to_string_lossy` to
/// convert): the absolute path of `rel` under `root`. Nothing is stated of the
/// result, whose separators depend on the platform.
#[verifier::external_body]
fn join_under_root(root: &str, rel: &str) -> String {
    std::path::PathBuf::from(root).join(rel).to_string_lossy().to_string()
}

/// The index node for a record node: id and relative path are the record's
/// path, flags are the record's, the size is zero and tokens are unknown.
pub fn config_node_to_file_node(config: &ConfigNode, root_path: &str, parent_id: Option<String>) -> (r:
    FileNode)
    ensures
        r.id@ == config.path@,
        r.relative_path@ == config.path@,
        r.parent_id == parent_id,
        r.name@ == config.name@,
        r.is_directory == config.is_directory,
        r.size == Some(0u64),
        r.token_count is None,
        r.selected == config.selected,
        r.expanded == config.expanded,
{
    FileNode {
        id: config.path.clone(),
        parent_id,
        name: config.name.clone(),
        path: join_under_root(root_path, config.path.as_str()),
        relative_path: config.path.clone(),
        is_directory: config.is_directory,
        size: Some(0),
        token_count: None,
        selected: config.selected,
        expanded: config.expanded,
    }
}

/// Whether `n` can join `nodes` at `at` (replacing) or at the end (`None`)
/// without breaking the index.
pub open spec fn placement_ok(nodes: Seq<FileNode>, n: FileNode, at: Option<int>) -> bool {
    &&& match n.parent_id {
        Some(p) => crate::scanner::has_directory(nodes, p@),
        None => true,
    }
    &&& match at {
        Some(k) => 0 <= k < nodes.len() && nodes[k].id@ == n.id@ && nodes[k].is_directory
            == n.is_directory,
        None => !crate::state::has_id(nodes, n.id@),
    }
}

proof fn lemma_place_keeps_wf(nodes: Seq<FileNode>, n: FileNode, k: int)
    requires
        index_wf(nodes),
        placement_ok(nodes, n, Some(k)),
    ensures
        index_wf(nodes.update(k, n)),
{
    let s = nodes.update(k, n);
    assert forall|i: int| 0 <= i < s.len() && (#[trigger] s[i]).parent_id is Some implies exists|m: int|
        0 <= m < s.len() && s[m].id@ == s[i].parent_id->0@ && s[m].is_directory by {
        let pid = s[i].parent_id->0@;
        let m = choose|m: int| 0 <= m < nodes.len() && nodes[m].id@ == pid && nodes[m].is_directory;
        assert(s[m].id@ == nodes[m].id@);
    }
}

/// Some record entry has the node's path and flags.
pub open spec fn from_record(n: FileNode, entries: Seq<(Seq<char>, bool, bool)>) -> bool {
    exists|k: int| 0 <= k < entries.len() && entries[k] == (n.relative_path@, n.selected, n.expanded)
}

/// Every node of `placed` carries the path and flags of some record entry.
pub open spec fn drawn_from(placed: Seq<FileNode>, entries: Seq<(Seq<char>, bool, bool)>) -> bool {
    forall|m: int| 0 <= m < placed.len() ==> from_record(#[trigger] placed[m], entries)
}

proof fn lemma_drawn_concat(
    a: Seq<FileNode>,
    ea: Seq<(Seq<char>, bool, bool)>,
    b: Seq<FileNode>,
    eb: Seq<(Seq<char>, bool, bool)>,
)
    requires
        drawn_from(a, ea),
        drawn_from(b, eb),
    ensures
        drawn_from(a + b, ea + eb),
{
    let s = a + b;
    let e = ea + eb;
    assert forall|m: int| 0 <= m < s.len() implies from_record(#[trigger] s[m], e) by {
        if m < a.len() {
            assert(s[m] == a[m]);
            assert(from_record(a[m], ea));
            let k = choose|k: int| 0 <= k < ea.len() && ea[k] == (a[m].relative_path@, a[m].selected, a[m].expanded);
            assert(e[k] == ea[k]);
        } else {
            let n = b[m - a.len()];
            assert(s[m] == n);
            assert(from_record(n, eb));
            let k = choose|k: int| 0 <= k < eb.len() && eb[k] == (n.relative_path@, n.selected, n.expanded);
            assert(e[ea.len() + k] == eb[k]);
        }
    }
}

/// Places the record's nodes into the index in pre-order, each with the
/// record's flags and its enclosing record node as parent. A node whose id is
/// indexed replaces that node when both are files or both directories, and is
/// skipped with its subtree otherwise; children of a file are skipped, so the
/// index stays well formed. Returns the placed nodes in order.
pub fn load_config_nodes(
    state: &mut AppState,
    record: &Vec<ConfigNode>,
    root_path: &str,
    parent_id: Option<String>,
) -> (r: Vec<FileNode>)
    requires
        old(state).wf(),
        match parent_id {
            Some(p) => crate::scanner::has_directory(old(state).nodes@, p@),
            None => true,
        },
    ensures
        final(state).wf(),
        final(state).root_path == old(state).root_path,
        final(state).last_generated_content == old(state).last_generated_content,
        final(state).current_scan_id == old(state).current_scan_id,
        final(state).nodes@.len() >= old(state).nodes@.len(),
        forall|j: int|
            0 <= j < old(state).nodes@.len() ==> (#[trigger] final(state).nodes@[j]).id@
                == old(state).nodes@[j].id@ && final(state).nodes@[j].is_directory == old(
                state,
            ).nodes@[j].is_directory,
        r@.len() <= flatten_spec(record@).len(),
        drawn_from(r@, flatten_spec(record@)),
        record@.len() > 0 && !crate::state::has_id(old(state).nodes@, record@[0].path@) ==> r@.len()
            > 0 && r@[0].relative_path@ == record@[0].path@,
    decreases record@,
{
    let ghost start = *state;
    let mut placed: Vec<FileNode> = Vec::new();
    let mut i: usize = 0;
    assert(record@.take(0) =~= Seq::<ConfigNode>::empty());
    while i < record.len()
        invariant
            i <= record.len(),
            state.wf(),
            state.root_path == start.root_path,
            state.last_generated_content == start.last_generated_content,
            state.current_scan_id == start.current_scan_id,
            state.nodes@.len() >= start.nodes@.len(),
            forall|j: int|
                0 <= j < start.nodes@.len() ==> (#[trigger] state.nodes@[j]).id@ == start.nodes@[j].id@
                    && state.nodes@[j].is_directory == start.nodes@[j].is_directory,
            match parent_id {
                Some(p) => crate::scanner::has_directory(start.nodes@, p@),
                None => true,
            },
            placed@.len() <= flatten_spec(record@.take(i as int)).len(),
            drawn_from(placed@, flatten_spec(record@.take(i as int))),
            i == 0 ==> state.nodes@ == start.nodes@ && placed@.len() == 0,
            i > 0 && !crate::state::has_id(start.nodes@, record@[0].path@) ==> placed@.len() > 0
                && placed@[0].relative_path@ == record@[0].path@,
        decreases record.len() - i,
    {
        let c = &record[i];
        let ghost before = flatten_spec(record@.take(i as int));
        proof {
            let one = seq![record@[i as int]];
            assert(one.drop_first() =~= Seq::<ConfigNode>::empty());
            assert(flatten_spec(one.drop_first()) == Seq::<(Seq<char>, bool, bool)>::empty());
            assert(one[0] == record@[i as int]);
            assert(record@.take(i + 1) =~= record@.take(i as int) + one);
            lemma_flatten_append(record@.take(i as int), one);
            if parent_id is Some {
                let p = parent_id->0;
                let m = choose|m: int|
                    0 <= m < start.nodes@.len() && start.nodes@[m].id@ == p@ && start.nodes@[m].is_directory;
                assert(state.nodes@[m].id@ == start.nodes@[m].id@);
            }
        }
        let ghost after = flatten_spec(record@.take(i + 1));
        let ghost own = seq![(c.path@, c.selected, c.expanded)];
        let ghost sub = match record@[i as int].children {
            Some(kids) => flatten_spec(kids@),
            None => Seq::empty(),
        };
        assert(after =~= before + own + sub);
        let ghost pl_before = placed@;
        let node = config_node_to_file_node(c, root_path, copy_parent(&parent_id));
        let slot = position_of(&state.nodes, &node.id);
        let ok = match slot {
            Some(k) => state.nodes[k].is_directory == node.is_directory,
            None => true,
        };
        if ok {
            let ghost nodes0 = state.nodes@;
            let is_dir = node.is_directory;
            let id = node.id.clone();
            match slot {
                Some(k) => {
                    proof {
                        lemma_place_keeps_wf(nodes0, node, k as int);
                    }
                    state.nodes.set(k, node.duplicate());
                },
                None => {
                    proof {
                        crate::scanner::lemma_push_keeps_wf(nodes0, node);
                    }
                    state.nodes.push(node.duplicate());
                },
            }
            placed.push(node);
            proof {
                assert(from_record(seq![node][0], own)) by {
                    assert(own[0] == (node.relative_path@, node.selected, node.expanded));
                }
                assert(drawn_from(seq![node], own));
                lemma_drawn_concat(pl_before, before, seq![node], own);
                assert(placed@ =~= pl_before + seq![node]);
                assert(drawn_from(Seq::<FileNode>::empty(), sub));
                lemma_drawn_concat(placed@, before + own, Seq::<FileNode>::empty(), sub);
                assert(placed@ + Seq::<FileNode>::empty() =~= placed@);
                assert(before + own + sub =~= after);
            }
            if is_dir {
                match &c.children {
                    Some(kids) => {
                        assert(crate::scanner::has_directory(state.nodes@, id@)) by {
                            let m = match slot { Some(k) => k as int, None => (state.nodes@.len() - 1) as int };
                            assert(state.nodes@[m].id@ == id@);
                        }
                        assert(decreases_to!(record@ => record@[i as int]));
                        assert(decreases_to!(record@[i as int] => record@[i as int].children));
                        assert(decreases_to!(record@[i as int].children => record@[i as int].children->0));
                        assert(decreases_to!(*kids => kids@));
                        let below = load_config_nodes(state, kids, root_path, Some(id));
                        let ghost pl0 = placed@;
                        let mut j: usize = 0;
                        while j < below.len()
                            invariant
                                j <= below.len(),
                                pl0.len() > 0,
                                placed@ == pl0 + below@.take(j as int),
                            decreases below.len() - j,
                        {
                            placed.push(below[j].duplicate());
                            j = j + 1;
                            assert(placed@ =~= pl0 + below@.take(j as int));
                        }
                        proof {
                            assert(below@.take(below.len() as int) =~= below@);
                            assert(pl0 =~= pl_before + seq![node]);
                            assert(from_record(seq![node][0], own)) by {
                                assert(own[0] == (node.relative_path@, node.selected, node.expanded));
                            }
                            assert(drawn_from(seq![node], own));
                            lemma_drawn_concat(pl_before, before, seq![node], own);
                            lemma_drawn_concat(pl0, before + own, below@, sub);
                            assert(before + own + sub =~= after);
                        }
                    },
                    None => {},
                }
            }
        }
        proof {
            if i > 0 && pl_before.len() > 0 {
                assert(placed@[0] == pl_before[0]);
            }
            if !ok {
                assert(drawn_from(Seq::<FileNode>::empty(), own + sub));
                lemma_drawn_concat(placed@, before, Seq::<FileNode>::empty(), own + sub);
                assert(placed@ + Seq::<FileNode>::empty() =~= placed@);
                assert(before + (own + sub) =~= after);
            }
        }
        i = i + 1;
    }
    assert(record@.take(record.len() as int) =~= record@);
    placed
}

fn copy_parent(p: &Option<String>) -> (r: Option<String>)
    ensures
        r == *p,
{
    crate::models::copy_string_option(p)
}

} // verus!
