//! The structural scan: turns the entries of a directory walk into index
//! nodes, applying the ignore policy and restoring persisted selection flags.
use vstd::prelude::*;

use crate::config::{extension, extension_of, is_private_file, is_private_spec, AppConfig};
use crate::models::FileNode;
use crate::persist::{lookup_prior, prior_lookup, prior_view, PriorEntry};
use crate::sort::{is_sorted, sort_items};
use crate::state::{has_id, index_wf, AppState};

verus! {

/// One entry reported by a directory walk.
#[derive(Debug, Clone)]
pub struct WalkEntry {
    /// 0 for the walk's root, 1 for its direct children, and so on.
    pub depth: usize,
    /// The entry's file name.
    pub name: String,
    /// Absolute path.
    pub path: String,
    /// Path relative to the scan root.
    pub relative_path: String,
    /// Relative path of the containing directory ("" for the root).
    pub parent_relative: String,
    pub is_directory: bool,
    /// Byte length from the entry's metadata (read by subtree scans only).
    pub size: u64,
}

/// The policy rejects this entry by itself: it is the root, its name is
/// ignored, or it is a file with a binary extension or a private name.
pub open spec fn entry_excluded(cfg: AppConfig, e: WalkEntry) -> bool {
    ||| e.depth == 0
    ||| cfg.ignores_name_spec(e.name@)
    ||| (!e.is_directory && (match extension_of(e.name@) {
        Some(x) => cfg.ignores_extension_spec(x),
        None => false,
    } || is_private_spec(e.name@)))
}

/// The parent id of an entry: absent at depth 1 or when the parent path is empty.
pub open spec fn entry_parent(e: WalkEntry) -> Option<String> {
    if e.depth <= 1 || e.parent_relative@.len() == 0 {
        None
    } else {
        Some(e.parent_relative)
    }
}

/// Whether `kept` already has a directory with this id.
pub open spec fn has_directory(kept: Seq<FileNode>, id: Seq<char>) -> bool {
    exists|k: int| 0 <= k < kept.len() && kept[k].id@ == id && kept[k].is_directory
}

/// An entry joins the index when the policy admits it, its id is new, and its
/// parent, if any, is a directory already in the index.
pub open spec fn admits(cfg: AppConfig, kept: Seq<FileNode>, e: WalkEntry) -> bool {
    &&& !entry_excluded(cfg, e)
    &&& !has_id(kept, e.relative_path@)
    &&& match entry_parent(e) {
        Some(p) => has_directory(kept, p@),
        None => true,
    }
}

/// The node for an entry: flags restored from the prior state when it names
/// the entry, else selected and collapsed; size and tokens not yet known.
pub open spec fn node_of(e: WalkEntry, prior: Seq<(Seq<char>, bool, bool)>) -> FileNode {
    let (selected, expanded) = match prior_lookup(prior, e.relative_path@) {
        Some(flags) => flags,
        None => (true, false),
    };
    FileNode {
        id: e.relative_path,
        parent_id: entry_parent(e),
        name: e.name,
        path: e.path,
        relative_path: e.relative_path,
        is_directory: e.is_directory,
        size: None,
        token_count: None,
        selected: selected,
        expanded: expanded,
    }
}

/// The nodes of a scan, in walk order.
pub open spec fn scan_nodes(
    cfg: AppConfig,
    entries: Seq<WalkEntry>,
    prior: Seq<(Seq<char>, bool, bool)>,
) -> Seq<FileNode>
    decreases entries.len(),
{
    if entries.len() == 0 {
        Seq::empty()
    } else {
        let kept = scan_nodes(cfg, entries.drop_last(), prior);
        let e = entries.last();
        if admits(cfg, kept, e) {
            kept.push(node_of(e, prior))
        } else {
            kept
        }
    }
}

/// Whether the policy rejects this entry by itself.
pub fn is_excluded(cfg: &AppConfig, e: &WalkEntry) -> (r: bool)
    ensures
        r == entry_excluded(*cfg, *e),
{
    if e.depth == 0 {
        return true;
    }
    if cfg.is_ignored_name(e.name.as_str()) {
        return true;
    }
    if !e.is_directory {
        match extension(e.name.as_str()) {
            Some(x) => {
                if cfg.is_ignored_extension(x.as_str()) {
                    return true;
                }
            },
            None => {},
        }
        if is_private_file(e.name.as_str()) {
            return true;
        }
    }
    false
}

/// Looks `e` up against the nodes kept so far: returns whether its id is new
/// and whether its parent, if any, is a kept directory.
fn check_placement(kept: &Vec<FileNode>, e: &WalkEntry) -> (r: (bool, bool))
    ensures
        r.0 == !has_id(kept@, e.relative_path@),
        r.1 == match entry_parent(*e) {
            Some(p) => has_directory(kept@, p@),
            None => true,
        },
{
    let needs_parent = !(e.depth <= 1 || e.parent_relative.as_str().is_empty());
    let mut fresh = true;
    let mut parent_found = !needs_parent;
    let mut k: usize = 0;
    while k < kept.len()
        invariant
            k <= kept.len(),
            fresh == forall|j: int| 0 <= j < k ==> kept@[j].id@ != e.relative_path@,
            parent_found == (!needs_parent || exists|j: int|
                0 <= j < k && kept@[j].id@ == e.parent_relative@ && kept@[j].is_directory),
        decreases kept.len() - k,
    {
        if kept[k].id == e.relative_path {
            fresh = false;
        }
        if needs_parent && kept[k].is_directory && kept[k].id == e.parent_relative {
            parent_found = true;
        }
        k = k + 1;
    }
    (fresh, parent_found)
}

/// Builds the node for an admitted entry.
fn make_node(e: &WalkEntry, prior: &Vec<PriorEntry>) -> (n: FileNode)
    ensures
        n == node_of(*e, prior_view(prior@)),
{
    let (selected, expanded) = match lookup_prior(prior, &e.relative_path) {
        Some(flags) => flags,
        None => (true, false),
    };
    let parent_id = if e.depth <= 1 || e.parent_relative.as_str().is_empty() {
        None
    } else {
        Some(e.parent_relative.clone())
    };
    FileNode {
        id: e.relative_path.clone(),
        parent_id: parent_id,
        name: e.name.clone(),
        path: e.path.clone(),
        relative_path: e.relative_path.clone(),
        is_directory: e.is_directory,
        size: None,
        token_count: None,
        selected: selected,
        expanded: expanded,
    }
}

/// Adding a node with a new id under an indexed directory keeps the index
/// well formed.
pub proof fn lemma_push_keeps_wf(kept: Seq<FileNode>, n: FileNode)
    requires
        index_wf(kept),
        !has_id(kept, n.id@),
        match n.parent_id {
            Some(p) => has_directory(kept, p@),
            None => true,
        },
    ensures
        index_wf(kept.push(n)),
{
    let s = kept.push(n);
    assert forall|i: int| 0 <= i < s.len() && (#[trigger] s[i]).parent_id is Some implies exists|k: int|
        0 <= k < s.len() && s[k].id@ == s[i].parent_id->0@ && s[k].is_directory by {
        if i < kept.len() {
            let k = choose|k: int|
                0 <= k < kept.len() && kept[k].id@ == kept[i].parent_id->0@ && kept[k].is_directory;
            assert(s[k] == kept[k]);
        } else {
            let k = choose|k: int|
                0 <= k < kept.len() && kept[k].id@ == n.parent_id->0@ && kept[k].is_directory;
            assert(s[k] == kept[k]);
        }
    }
    assert forall|i: int, j: int|
        0 <= i < s.len() && 0 <= j < s.len() && i != j implies s[i].id@ != s[j].id@ by {
        if i < kept.len() && j < kept.len() {
        } else if i < kept.len() {
            assert(s[i] == kept[i]);
        } else {
            assert(s[j] == kept[j]);
        }
    }
}

/// The nodes admitted from `entries`, in walk order.
pub fn collect_nodes(cfg: &AppConfig, entries: &Vec<WalkEntry>, prior: &Vec<PriorEntry>) -> (r: Vec<
    FileNode,
>)
    ensures
        r@ == scan_nodes(*cfg, entries@, prior_view(prior@)),
        index_wf(r@),
{
    let mut kept: Vec<FileNode> = Vec::new();
    let mut i: usize = 0;
    while i < entries.len()
        invariant
            i <= entries.len(),
            kept@ == scan_nodes(*cfg, entries@.take(i as int), prior_view(prior@)),
            index_wf(kept@),
        decreases entries.len() - i,
    {
        let e = &entries[i];
        assert(entries@.take(i + 1).drop_last() =~= entries@.take(i as int));
        assert(entries@.take(i + 1).last() == entries@[i as int]);
        if !is_excluded(cfg, e) {
            let (fresh, parent_ok) = check_placement(&kept, e);
            if fresh && parent_ok {
                let node = make_node(e, prior);
                proof {
                    lemma_push_keeps_wf(kept@, node);
                }
                kept.push(node);
            }
        }
        i = i + 1;
    }
    assert(entries@.take(entries.len() as int) =~= entries@);
    kept
}

/// Every node carries the flags the prior state holds for its id or, when it
/// holds none, is selected and collapsed.
pub open spec fn flags_restored(nodes: Seq<FileNode>, prior: Seq<(Seq<char>, bool, bool)>) -> bool {
    forall|i: int|
        0 <= i < nodes.len() ==> match prior_lookup(prior, (#[trigger] nodes[i]).id@) {
            Some(flags) => nodes[i].selected == flags.0 && nodes[i].expanded == flags.1,
            None => nodes[i].selected && !nodes[i].expanded,
        }
}

/// Starts a full scan of `root`: records the root and moves to the next scan
/// epoch, which the returned value names.
pub fn begin_scan(state: &mut AppState, root: String) -> (epoch: u32)
    ensures
        final(state).nodes == old(state).nodes,
        final(state).last_generated_content == old(state).last_generated_content,
        final(state).root_path == Some(root),
        epoch == final(state).current_scan_id,
        epoch as int == (old(state).current_scan_id as int + 1) % 0x1_0000_0000,
        epoch != old(state).current_scan_id,
{
    state.root_path = Some(root);
    state.current_scan_id = state.current_scan_id.wrapping_add(1);
    state.current_scan_id
}

/// Installs the nodes scanned from `entries` as the whole index and returns
/// them sorted: directories first, then by name.
pub fn complete_scan(
    state: &mut AppState,
    cfg: &AppConfig,
    entries: &Vec<WalkEntry>,
    prior: &Vec<PriorEntry>,
) -> (r: Vec<FileNode>)
    ensures
        final(state).nodes@ == scan_nodes(*cfg, entries@, prior_view(prior@)),
        final(state).wf(),
        final(state).root_path == old(state).root_path,
        final(state).last_generated_content == old(state).last_generated_content,
        final(state).current_scan_id == old(state).current_scan_id,
        is_sorted(r@),
        r@.to_multiset() == final(state).nodes@.to_multiset(),
{
    let nodes = collect_nodes(cfg, entries, prior);
    let mut listing: Vec<FileNode> = Vec::new();
    let mut i: usize = 0;
    while i < nodes.len()
        invariant
            i <= nodes.len(),
            listing@ == nodes@.take(i as int),
        decreases nodes.len() - i,
    {
        listing.push(nodes[i].duplicate());
        i = i + 1;
        assert(listing@ =~= nodes@.take(i as int));
    }
    assert(listing@ =~= nodes@);
    state.nodes = nodes;
    sort_items(listing)
}

/// The `(id, path)` of every file among `nodes`, in order.
pub open spec fn file_items(nodes: Seq<FileNode>) -> Seq<(Seq<char>, Seq<char>)>
    decreases nodes.len(),
{
    if nodes.len() == 0 {
        Seq::empty()
    } else {
        let rest = file_items(nodes.drop_last());
        if nodes.last().is_directory {
            rest
        } else {
            rest.push((nodes.last().id@, nodes.last().path@))
        }
    }
}

pub open spec fn pair_views(s: Seq<(String, String)>) -> Seq<(Seq<char>, Seq<char>)> {
    s.map_values(|p: (String, String)| (p.0@, p.1@))
}

/// The work list of background analysis: `(id, path)` of every file, in order.
pub fn analysis_items(nodes: &Vec<FileNode>) -> (r: Vec<(String, String)>)
    ensures
        pair_views(r@) == file_items(nodes@),
{
    let mut r: Vec<(String, String)> = Vec::new();
    let mut i: usize = 0;
    while i < nodes.len()
        invariant
            i <= nodes.len(),
            pair_views(r@) == file_items(nodes@.take(i as int)),
        decreases nodes.len() - i,
    {
        assert(nodes@.take(i + 1).drop_last() =~= nodes@.take(i as int));
        if !nodes[i].is_directory {
            r.push((nodes[i].id.clone(), nodes[i].path.clone()));
            assert(pair_views(r@) =~= file_items(nodes@.take(i as int)).push(
                (nodes@[i as int].id@, nodes@[i as int].path@),
            ));
        }
        i = i + 1;
    }
    assert(nodes@.take(nodes.len() as int) =~= nodes@);
    r
}

/// Every scanned node is the node of some walk entry below the root.
proof fn lemma_scan_provenance(cfg: AppConfig, entries: Seq<WalkEntry>, prior: Seq<(Seq<char>, bool, bool)>)
    ensures
        forall|i: int|
            0 <= i < scan_nodes(cfg, entries, prior).len() ==> exists|j: int|
                0 <= j < entries.len() && entries[j].depth > 0 && #[trigger] scan_nodes(
                    cfg,
                    entries,
                    prior,
                )[i] == node_of(entries[j], prior),
    decreases entries.len(),
{
    if entries.len() > 0 {
        let rest = entries.drop_last();
        lemma_scan_provenance(cfg, rest, prior);
        let kept = scan_nodes(cfg, rest, prior);
        let s = scan_nodes(cfg, entries, prior);
        assert forall|i: int| 0 <= i < s.len() implies exists|j: int|
            0 <= j < entries.len() && entries[j].depth > 0 && #[trigger] s[i] == node_of(
                entries[j],
                prior,
            ) by {
            if i < kept.len() {
                let j = choose|j: int|
                    0 <= j < rest.len() && rest[j].depth > 0 && kept[i] == node_of(rest[j], prior);
                assert(entries[j] == rest[j]);
                assert(s[i] == kept[i]);
            } else {
                assert(entries[entries.len() - 1] == entries.last());
            }
        }
    }
}

/// The scan never returns a node for the walk's root: every node comes from an
/// entry at depth one or more.
pub proof fn lemma_scan_omits_root(cfg: AppConfig, entries: Seq<WalkEntry>, prior: Seq<(Seq<char>, bool, bool)>)
    ensures
        forall|i: int|
            0 <= i < scan_nodes(cfg, entries, prior).len() ==> exists|j: int|
                0 <= j < entries.len() && entries[j].depth > 0 && #[trigger] scan_nodes(
                    cfg,
                    entries,
                    prior,
                )[i] == node_of(entries[j], prior),
{
    lemma_scan_provenance(cfg, entries, prior);
}

/// Merging with a persisted record: a node the record names keeps the recorded
/// `selected` and `expanded`; any other node is selected and collapsed.
pub proof fn lemma_scan_restores_flags(cfg: AppConfig, entries: Seq<WalkEntry>, prior: Seq<(Seq<char>, bool, bool)>)
    ensures
        flags_restored(scan_nodes(cfg, entries, prior), prior),
{
    lemma_scan_provenance(cfg, entries, prior);
    let s = scan_nodes(cfg, entries, prior);
    assert forall|i: int| 0 <= i < s.len() implies match prior_lookup(prior, (#[trigger] s[i]).id@) {
        Some(flags) => s[i].selected == flags.0 && s[i].expanded == flags.1,
        None => s[i].selected && !s[i].expanded,
    } by {
        let j = choose|j: int|
            0 <= j < entries.len() && entries[j].depth > 0 && s[i] == node_of(entries[j], prior);
    }
}

/// Why a subtree scan could not run.
#[derive(Debug, Clone, Copy, PartialEq, Eq, Structural)]
pub enum ScanError {
    /// No directory has been opened.
    NoRoot,
    /// The index has no node with the given id.
    NotFound,
    /// The node is a file.
    NotDirectory,
}

impl ScanError {
    pub fn message(&self) -> (r: String)
        ensures
            r@ == match self {
                ScanError::NoRoot => "No root path set"@,
                ScanError::NotFound => "Node not found"@,
                ScanError::NotDirectory => "Node is not a directory"@,
            },
    {
        match self {
            ScanError::NoRoot => String::from_str("No root path set"),
            ScanError::NotFound => String::from_str("Node not found"),
            ScanError::NotDirectory => String::from_str("Node is not a directory"),
        }
    }
}

/// The outcome of the checks that precede a subtree scan of `id`.
pub open spec fn subtree_check(state: AppState, id: Seq<char>) -> Option<ScanError> {
    if state.root_path is None {
        Some(ScanError::NoRoot)
    } else if !has_id(state.nodes@, id) {
        Some(ScanError::NotFound)
    } else if !has_directory(state.nodes@, id) {
        Some(ScanError::NotDirectory)
    } else {
        None
    }
}

fn check_subtree(state: &AppState, id: &String) -> (r: Result<usize, ScanError>)
    requires
        state.wf(),
    ensures
        match r {
            Ok(k) => subtree_check(*state, id@) is None && k < state.nodes@.len()
                && state.nodes@[k as int].id@ == id@ && state.nodes@[k as int].is_directory,
            Err(e) => subtree_check(*state, id@) == Some(e),
        },
{
    if state.root_path.is_none() {
        return Err(ScanError::NoRoot);
    }
    match crate::state::position_of(&state.nodes, id) {
        None => Err(ScanError::NotFound),
        Some(k) => {
            if state.nodes[k].is_directory {
                Ok(k)
            } else {
                assert(!has_directory(state.nodes@, id@)) by {
                    assert forall|j: int| 0 <= j < state.nodes@.len() && state.nodes@[j].id@ == id@
                        implies !state.nodes@[j].is_directory by {
                        assert(j == k);
                    }
                }
                Err(ScanError::NotDirectory)
            }
        },
    }
}

/// The scan root and the relative path of the directory `id`, for the walk
/// of a subtree scan.
pub fn subtree_target(state: &AppState, id: &String) -> (r: Result<(String, String), ScanError>)
    requires
        state.wf(),
    ensures
        match r {
            Ok((root, rel)) => subtree_check(*state, id@) is None && state.root_path == Some(root)
                && exists|k: int|
                0 <= k < state.nodes@.len() && state.nodes@[k].id@ == id@
                    && state.nodes@[k].relative_path@ == rel@,
            Err(e) => subtree_check(*state, id@) == Some(e),
        },
{
    let k = check_subtree(state, id)?;
    let root = match &state.root_path {
        Some(r) => r.clone(),
        None => {
            return Err(ScanError::NoRoot);
        },
    };
    Ok((root, state.nodes[k].relative_path.clone()))
}

/// A subtree entry joins the index when the policy admits it and its id is new.
pub open spec fn subtree_admits(cfg: AppConfig, kept: Seq<FileNode>, e: WalkEntry) -> bool {
    !entry_excluded(cfg, e) && !has_id(kept, e.relative_path@)
}

/// The node added for a subtree entry: a child of the scanned directory,
/// measured, selected and collapsed.
pub open spec fn subtree_node(e: WalkEntry, dir: String) -> FileNode {
    FileNode {
        id: e.relative_path,
        parent_id: Some(dir),
        name: e.name,
        path: e.path,
        relative_path: e.relative_path,
        is_directory: e.is_directory,
        size: Some(
            if e.is_directory {
                0
            } else {
                e.size
            },
        ),
        token_count: None,
        selected: true,
        expanded: false,
    }
}

/// The index after merging the entries of a subtree walk below `dir`.
pub open spec fn subtree_merge(
    cfg: AppConfig,
    nodes: Seq<FileNode>,
    entries: Seq<WalkEntry>,
    dir: String,
) -> Seq<FileNode>
    decreases entries.len(),
{
    if entries.len() == 0 {
        nodes
    } else {
        let kept = subtree_merge(cfg, nodes, entries.drop_last(), dir);
        if subtree_admits(cfg, kept, entries.last()) {
            kept.push(subtree_node(entries.last(), dir))
        } else {
            kept
        }
    }
}

/// Adds the new entries of a walk of the directory `id` to the index, as its
/// children; entries whose id is already indexed are left alone. Returns the
/// added nodes.
pub fn scan_directory(
    state: &mut AppState,
    id: &String,
    config: &AppConfig,
    entries: &Vec<WalkEntry>,
) -> (r: Result<Vec<FileNode>, ScanError>)
    requires
        old(state).wf(),
    ensures
        final(state).wf(),
        final(state).root_path == old(state).root_path,
        final(state).last_generated_content == old(state).last_generated_content,
        final(state).current_scan_id == old(state).current_scan_id,
        match r {
            Ok(added) => subtree_check(*old(state), id@) is None && final(state).nodes@
                == subtree_merge(*config, old(state).nodes@, entries@, *id) && added@
                == final(state).nodes@.skip(old(state).nodes@.len() as int),
            Err(e) => subtree_check(*old(state), id@) == Some(e) && final(state).nodes
                == old(state).nodes,
        },
{
    let k = check_subtree(state, id)?;
    let ghost start = state.nodes@;
    let ghost old_state = *state;
    let dir = id.clone();
    let mut added: Vec<FileNode> = Vec::new();
    let mut i: usize = 0;
    assert(start.skip(start.len() as int) =~= Seq::<FileNode>::empty());
    while i < entries.len()
        invariant
            i <= entries.len(),
            dir == *id,
            k < start.len(),
            start[k as int].id@ == id@,
            start[k as int].is_directory,
            start.len() <= state.nodes@.len(),
            forall|j: int| 0 <= j < start.len() ==> #[trigger] state.nodes@[j] == start[j],
            state.nodes@ == subtree_merge(*config, start, entries@.take(i as int), dir),
            added@ == state.nodes@.skip(start.len() as int),
            state.wf(),
            state.root_path == old_state.root_path,
            state.last_generated_content == old_state.last_generated_content,
            state.current_scan_id == old_state.current_scan_id,
        decreases entries.len() - i,
    {
        let e = &entries[i];
        assert(entries@.take(i + 1).drop_last() =~= entries@.take(i as int));
        assert(entries@.take(i + 1).last() == entries@[i as int]);
        if !is_excluded(config, e) {
            match crate::state::position_of(&state.nodes, &e.relative_path) {
                Some(_) => {},
                None => {
                    let node = FileNode {
                        id: e.relative_path.clone(),
                        parent_id: Some(dir.clone()),
                        name: e.name.clone(),
                        path: e.path.clone(),
                        relative_path: e.relative_path.clone(),
                        is_directory: e.is_directory,
                        size: Some(
                            if e.is_directory {
                                0
                            } else {
                                e.size
                            },
                        ),
                        token_count: None,
                        selected: true,
                        expanded: false,
                    };
                    proof {
                        assert(state.nodes@[k as int] == start[k as int]);
                        assert(has_directory(state.nodes@, dir@));
                        lemma_push_keeps_wf(state.nodes@, node);
                    }
                    let ghost before = state.nodes@;
                    state.nodes.push(node.duplicate());
                    added.push(node);
                    assert(state.nodes@.skip(start.len() as int) =~= before.skip(
                        start.len() as int,
                    ).push(node));
                },
            }
        }
        i = i + 1;
    }
    assert(entries@.take(entries.len() as int) =~= entries@);
    Ok(added)
}

} // verus!
