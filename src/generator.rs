//! The export generator: which files are exported, how each one is rendered
//! through the output template, and how the document, its bounded preview and
//! its totals are assembled in a fixed order.
use vstd::prelude::*;
use vstd::utf8::encode_utf8;

use crate::analysis::{content_tokens, decode_lossy, lossy_of};
use crate::config::{extension, extension_of, lower_of, lowercase, AppConfig};
use crate::models::{AppStats, FileNode};
use crate::sort::{lemma_sorted_spec, lemma_sorted_unique, sort_items, sorted_spec, ties_are_equal, Ordered};
use crate::state::AppState;
use crate::text::{
    chars_of, decimal, decimal_string, find_last, is_binary, last_index_of, lemma_lex_antisym, lemma_lex_total,
    lemma_lex_trans, lex_le, looks_binary, replace_all, replaced, str_equals, str_lex_le,
};

verus! {

/// Bytes of the document kept for the preview.
pub const PREVIEW_LIMIT: usize = 51200;

/// Largest document handed to a clipboard-style consumer.
pub const CLIPBOARD_LIMIT_BYTES: usize = 10485760;

/// Files processed between two progress reports.
pub const PROGRESS_STEP: usize = 5;

// ---------------------------------------------------------------------------
// Languages

/// The last component of a `/`-separated path.
pub open spec fn file_name_of(path: Seq<char>) -> Seq<char> {
    match last_index_of(path, '/') {
        Some(k) => path.skip(k + 1),
        None => path,
    }
}

/// Languages of file names that have one of their own.
pub open spec fn special_language(name: Seq<char>) -> Option<Seq<char>> {
    if name == "Dockerfile"@ {
        Some("dockerfile"@)
    } else if name == "Makefile"@ {
        Some("makefile"@)
    } else if name == "LICENSE"@ {
        Some("text"@)
    } else if name == "README"@ {
        Some("markdown"@)
    } else if name == "CHANGELOG"@ {
        Some("markdown"@)
    } else if name == ".gitignore"@ {
        Some("gitignore"@)
    } else if name == ".gitattributes"@ {
        Some("gitattributes"@)
    } else if name == ".env"@ {
        Some("dotenv"@)
    } else if name == ".env.example"@ {
        Some("dotenv"@)
    } else if name == "docker-compose.yml"@ || name == "docker-compose.yaml"@ {
        Some("yaml"@)
    } else {
        None
    }
}

/// Languages by lower-case extension; "text" for any other.
pub open spec fn extension_language(e: Seq<char>) -> Seq<char> {
    if e == "ts"@ {
        "typescript"@
    } else if e == "js"@ {
        "javascript"@
    } else if e == "tsx"@ {
        "tsx"@
    } else if e == "jsx"@ {
        "jsx"@
    } else if e == "json"@ {
        "json"@
    } else if e == "md"@ {
        "markdown"@
    } else if e == "yml"@ || e == "yaml"@ {
        "yaml"@
    } else if e == "xml"@ {
        "xml"@
    } else if e == "html"@ {
        "html"@
    } else if e == "css"@ {
        "css"@
    } else if e == "scss"@ {
        "scss"@
    } else if e == "sass"@ {
        "sass"@
    } else if e == "less"@ {
        "less"@
    } else if e == "py"@ {
        "python"@
    } else if e == "java"@ {
        "java"@
    } else if e == "cpp"@ || e == "hpp"@ {
        "cpp"@
    } else if e == "c"@ || e == "h"@ {
        "c"@
    } else if e == "rs"@ {
        "rust"@
    } else if e == "go"@ {
        "go"@
    } else if e == "php"@ {
        "php"@
    } else if e == "rb"@ {
        "ruby"@
    } else if e == "sh"@ || e == "bash"@ || e == "zsh"@ {
        "bash"@
    } else if e == "sql"@ {
        "sql"@
    } else if e == "vue"@ {
        "vue"@
    } else if e == "svelte"@ {
        "svelte"@
    } else if e == "toml"@ {
        "toml"@
    } else if e == "ini"@ {
        "ini"@
    } else if e == "conf"@ || e == "config"@ {
        "conf"@
    } else {
        "text"@
    }
}

/// The language tag of a file: by special name, else by lower-cased extension.
pub open spec fn language_of(path: Seq<char>) -> Seq<char> {
    let name = file_name_of(path);
    match special_language(name) {
        Some(l) => l,
        None => match extension_of(name) {
            Some(e) => extension_language(lower_of(e)),
            None => "text"@,
        },
    }
}

fn file_name(path: &str) -> (r: String)
    ensures
        r@ == file_name_of(path@),
{
    let cs = chars_of(path);
    match find_last(&cs, '/') {
        Some(k) => path.substring_char(k + 1, cs.len()).to_owned(),
        None => {
            assert(path@.subrange(0, cs.len() as int) =~= path@);
            path.substring_char(0, cs.len()).to_owned()
        },
    }
}

fn special_language_of(name: &str) -> (r: Option<&'static str>)
    ensures
        r matches Some(l) ==> special_language(name@) == Some(l@),
        r is None ==> special_language(name@) is None,
{
    if str_equals(name, "Dockerfile") {
        Some("dockerfile")
    } else if str_equals(name, "Makefile") {
        Some("makefile")
    } else if str_equals(name, "LICENSE") {
        Some("text")
    } else if str_equals(name, "README") {
        Some("markdown")
    } else if str_equals(name, "CHANGELOG") {
        Some("markdown")
    } else if str_equals(name, ".gitignore") {
        Some("gitignore")
    } else if str_equals(name, ".gitattributes") {
        Some("gitattributes")
    } else if str_equals(name, ".env") {
        Some("dotenv")
    } else if str_equals(name, ".env.example") {
        Some("dotenv")
    } else if str_equals(name, "docker-compose.yml") || str_equals(name, "docker-compose.yaml") {
        Some("yaml")
    } else {
        None
    }
}

fn extension_language_of(e: &str) -> (r: &'static str)
    ensures
        r@ == extension_language(e@),
{
    if str_equals(e, "ts") {
        "typescript"
    } else if str_equals(e, "js") {
        "javascript"
    } else if str_equals(e, "tsx") {
        "tsx"
    } else if str_equals(e, "jsx") {
        "jsx"
    } else if str_equals(e, "json") {
        "json"
    } else if str_equals(e, "md") {
        "markdown"
    } else if str_equals(e, "yml") || str_equals(e, "yaml") {
        "yaml"
    } else if str_equals(e, "xml") {
        "xml"
    } else if str_equals(e, "html") {
        "html"
    } else if str_equals(e, "css") {
        "css"
    } else if str_equals(e, "scss") {
        "scss"
    } else if str_equals(e, "sass") {
        "sass"
    } else if str_equals(e, "less") {
        "less"
    } else if str_equals(e, "py") {
        "python"
    } else if str_equals(e, "java") {
        "java"
    } else if str_equals(e, "cpp") || str_equals(e, "hpp") {
        "cpp"
    } else if str_equals(e, "c") || str_equals(e, "h") {
        "c"
    } else if str_equals(e, "rs") {
        "rust"
    } else if str_equals(e, "go") {
        "go"
    } else if str_equals(e, "php") {
        "php"
    } else if str_equals(e, "rb") {
        "ruby"
    } else if str_equals(e, "sh") || str_equals(e, "bash") || str_equals(e, "zsh") {
        "bash"
    } else if str_equals(e, "sql") {
        "sql"
    } else if str_equals(e, "vue") {
        "vue"
    } else if str_equals(e, "svelte") {
        "svelte"
    } else if str_equals(e, "toml") {
        "toml"
    } else if str_equals(e, "ini") {
        "ini"
    } else if str_equals(e, "conf") || str_equals(e, "config") {
        "conf"
    } else {
        "text"
    }
}

/// The language tag used in the template for the file at `file_path`.
pub fn get_language_by_extension(file_path: &str) -> (r: &'static str)
    ensures
        r@ == language_of(file_path@),
{
    let name = file_name(file_path);
    match special_language_of(name.as_str()) {
        Some(l) => l,
        None => match extension(name.as_str()) {
            Some(e) => {
                let lower = lowercase(e.as_str());
                extension_language_of(lower.as_str())
            },
            None => "text",
        },
    }
}

// ---------------------------------------------------------------------------
// Eligibility

/// The node's parent, if the index holds it, is selected.
pub open spec fn parent_allows(nodes: Seq<FileNode>, n: FileNode) -> bool {
    match n.parent_id {
        Some(p) => forall|k: int| 0 <= k < nodes.len() && nodes[k].id@ == p@ ==> nodes[k].selected,
        None => true,
    }
}

/// A file is exported when it is selected and its immediate parent is.
pub open spec fn export_eligible(nodes: Seq<FileNode>, n: FileNode) -> bool {
    !n.is_directory && n.selected && parent_allows(nodes, n)
}

/// The eligible nodes among the first `upto` of `nodes`, in index order.
pub open spec fn eligible_prefix(nodes: Seq<FileNode>, upto: int) -> Seq<FileNode>
    decreases upto,
{
    if upto <= 0 {
        Seq::empty()
    } else {
        let rest = eligible_prefix(nodes, upto - 1);
        if export_eligible(nodes, nodes[upto - 1]) {
            rest.push(nodes[upto - 1])
        } else {
            rest
        }
    }
}

pub open spec fn eligible_spec(nodes: Seq<FileNode>) -> Seq<FileNode> {
    eligible_prefix(nodes, nodes.len() as int)
}

fn parent_selected(nodes: &Vec<FileNode>, n: &FileNode) -> (r: bool)
    ensures
        r == parent_allows(nodes@, *n),
{
    match &n.parent_id {
        Some(p) => {
            let target: String = p.clone();
            let mut k: usize = 0;
            while k < nodes.len()
                invariant
                    k <= nodes.len(),
                    n.parent_id is Some,
                    target@ == n.parent_id->0@,
                    forall|j: int| 0 <= j < k && nodes@[j].id@ == target@ ==> nodes@[j].selected,
                decreases nodes.len() - k,
            {
                let same = nodes[k].id == target;
                if same && !nodes[k].selected {
                    assert(nodes@[k as int].id@ == n.parent_id->0@ && !nodes@[k as int].selected);
                    assert(!parent_allows(nodes@, *n)) by {
                        assert(n.parent_id is Some);
                        assert(0 <= k < nodes@.len());
                    }
                    return false;
                }
                k = k + 1;
            }
            true
        },
        None => true,
    }
}

/// The files an export includes, in index order.
pub fn eligible_files(nodes: &Vec<FileNode>) -> (r: Vec<FileNode>)
    ensures
        r@ == eligible_spec(nodes@),
{
    let mut r: Vec<FileNode> = Vec::new();
    let mut i: usize = 0;
    while i < nodes.len()
        invariant
            i <= nodes.len(),
            r@ == eligible_prefix(nodes@, i as int),
        decreases nodes.len() - i,
    {
        let n = &nodes[i];
        if !n.is_directory && n.selected && parent_selected(nodes, n) {
            r.push(n.duplicate());
        }
        i = i + 1;
    }
    r
}

// ---------------------------------------------------------------------------
// Chunks

/// The rendered text of one exported file.
#[derive(Debug, Clone)]
pub struct ProcessedChunk {
    pub relative_path: String,
    pub formatted_content: String,
    /// The file's size as measured for the export; zero when it could not be.
    pub measured_size: u64,
}

impl Ordered for ProcessedChunk {
    open spec fn precedes_spec(&self, other: &Self) -> bool {
        lex_le(self.relative_path@, other.relative_path@)
    }

    proof fn lemma_precedes_total(a: &Self, b: &Self) {
        lemma_lex_total(a.relative_path@, b.relative_path@);
    }

    proof fn lemma_precedes_trans(a: &Self, b: &Self, c: &Self) {
        lemma_lex_trans(a.relative_path@, b.relative_path@, c.relative_path@);
    }

    fn precedes(&self, other: &Self) -> (r: bool) {
        str_lex_le(self.relative_path.as_str(), other.relative_path.as_str())
    }
}

/// What the export learned about one file from the filesystem.
pub enum FileProbe {
    /// Its metadata could not be read.
    Missing,
    /// It measured this many bytes and, being over the limit, was not read.
    Measured(u64),
    /// It measured this many bytes and was read: the content, or `None` when
    /// the read failed.
    Loaded(u64, Option<Vec<u8>>),
}

/// Whether a file of this size is read for the export.
pub fn needs_content(config: &AppConfig, size: u64) -> (r: bool)
    ensures
        r == (size <= config.max_file_size),
{
    size <= config.max_file_size
}

/// The text put in place of `{{content}}`.
pub open spec fn content_text(content: Option<Vec<u8>>) -> Seq<char> {
    match content {
        Some(b) => if is_binary(b@) {
            "*Binary file*"@
        } else {
            lossy_of(b@)
        },
        None => "*Error reading file*"@,
    }
}

pub open spec fn missing_text(rel: Seq<char>) -> Seq<char> {
    "## "@ + rel + "\n\n*Error: Could not read file*\n\n---\n\n"@
}

pub open spec fn skipped_text(rel: Seq<char>, size: u64, limit: u64) -> Seq<char> {
    "## "@ + rel + "\n\n*File too large ("@ + decimal(size as nat) + " bytes, limit: "@ + decimal(
        limit as nat,
    ) + " bytes) - skipped*\n\n---\n\n"@
}

/// The template with path, language and content substituted, in that order.
pub open spec fn templated(template: Seq<char>, rel: Seq<char>, content: Seq<char>) -> Seq<char> {
    replaced(
        replaced(replaced(template, "{{path}}"@, rel), "{{language}}"@, language_of(rel)),
        "{{content}}"@,
        content,
    )
}

/// The chunk for one eligible file.
pub open spec fn chunk_spec(cfg: AppConfig, rel: Seq<char>, probe: FileProbe) -> (Seq<char>, u64) {
    match probe {
        FileProbe::Missing => (missing_text(rel), 0),
        FileProbe::Measured(size) => (skipped_text(rel, size, cfg.max_file_size), size),
        FileProbe::Loaded(size, content) => (
            templated(cfg.output_template@, rel, content_text(content)),
            size,
        ),
    }
}

fn content_string(content: &Option<Vec<u8>>) -> (r: String)
    ensures
        r@ == content_text(*content),
{
    match content {
        Some(b) => {
            if looks_binary(b.as_slice()) {
                String::from_str("*Binary file*")
            } else {
                decode_lossy(b.as_slice())
            }
        },
        None => String::from_str("*Error reading file*"),
    }
}

/// Renders one eligible file. A file over the size limit yields a placeholder
/// that names both sizes; its size still counts.
pub fn render_chunk(config: &AppConfig, relative_path: &String, probe: FileProbe) -> (r:
    ProcessedChunk)
    ensures
        r.relative_path == *relative_path,
        (r.formatted_content@, r.measured_size) == chunk_spec(*config, relative_path@, probe),
{
    proof {
        reveal_strlit("{{path}}");
        reveal_strlit("{{language}}");
        reveal_strlit("{{content}}");
    }
    let ghost probe0 = probe;
    match probe {
        FileProbe::Missing => {
            let mut s = String::from_str("## ");
            s.append(relative_path.as_str());
            s.append("\n\n*Error: Could not read file*\n\n---\n\n");
            ProcessedChunk {
                relative_path: relative_path.clone(),
                formatted_content: s,
                measured_size: 0,
            }
        },
        FileProbe::Measured(size) => {
            let mut s = String::from_str("## ");
            s.append(relative_path.as_str());
            s.append("\n\n*File too large (");
            let a = decimal_string(size);
            s.append(a.as_str());
            s.append(" bytes, limit: ");
            let b = decimal_string(config.max_file_size);
            s.append(b.as_str());
            s.append(" bytes) - skipped*\n\n---\n\n");
            ProcessedChunk {
                relative_path: relative_path.clone(),
                formatted_content: s,
                measured_size: size,
            }
        },
        FileProbe::Loaded(size, content) => {
            let text = content_string(&content);
            let language = get_language_by_extension(relative_path.as_str());
            let step1 = replace_all(config.output_template.as_str(), "{{path}}", relative_path.as_str());
            let step2 = replace_all(step1.as_str(), "{{language}}", language);
            let formatted = replace_all(step2.as_str(), "{{content}}", text.as_str());
            ProcessedChunk {
                relative_path: relative_path.clone(),
                formatted_content: formatted,
                measured_size: size,
            }
        },
    }
}

/// Whether the `current`-th completion of `total` is reported.
pub fn should_report_progress(current: usize, total: usize) -> (r: bool)
    ensures
        r == (current % PROGRESS_STEP == 0 || current == total),
{
    current % PROGRESS_STEP == 0 || current == total
}

// ---------------------------------------------------------------------------
// Assembly

/// The document header around the tree text.
pub open spec fn header_spec(tree: Seq<char>) -> Seq<char> {
    "# Collected Files\n\n## File Structure\n\n```\n"@ + tree + "\n```\n\n---\n\n"@
}

pub fn export_header(tree: &String) -> (r: String)
    ensures
        r@ == header_spec(tree@),
{
    let mut s = String::from_str("# Collected Files\n\n## File Structure\n\n```\n");
    s.append(tree.as_str());
    s.append("\n```\n\n---\n\n");
    s
}

/// The chunk texts one after the other.
pub open spec fn concat_chunks(chunks: Seq<ProcessedChunk>) -> Seq<char>
    decreases chunks.len(),
{
    if chunks.len() == 0 {
        Seq::empty()
    } else {
        concat_chunks(chunks.drop_last()) + chunks.last().formatted_content@
    }
}

/// The document: the header, then the chunks in ascending relative-path order.
pub open spec fn document_spec(header: Seq<char>, chunks: Seq<ProcessedChunk>) -> Seq<char> {
    header + concat_chunks(sorted_spec(chunks))
}

/// Total measured size of the chunks whose file is in the index.
pub open spec fn chunk_size_total(nodes: Seq<FileNode>, chunks: Seq<ProcessedChunk>) -> nat
    decreases chunks.len(),
{
    if chunks.len() == 0 {
        0
    } else {
        chunk_size_total(nodes, chunks.drop_last()) + if exists|k: int|
            0 <= k < nodes.len() && nodes[k].id@ == chunks.last().relative_path@ {
            chunks.last().measured_size as nat
        } else {
            0
        }
    }
}

/// The token count the index holds for `id` (zero when unknown or absent).
pub open spec fn indexed_tokens(nodes: Seq<FileNode>, id: Seq<char>) -> nat {
    if exists|k: int| 0 <= k < nodes.len() && nodes[k].id@ == id {
        let k = choose|k: int| 0 <= k < nodes.len() && nodes[k].id@ == id;
        match nodes[k].token_count {
            Some(t) => t as nat,
            None => 0,
        }
    } else {
        0
    }
}

/// Total index token count of the chunks' files.
pub open spec fn chunk_token_total(nodes: Seq<FileNode>, chunks: Seq<ProcessedChunk>) -> nat
    decreases chunks.len(),
{
    if chunks.len() == 0 {
        0
    } else {
        chunk_token_total(nodes, chunks.drop_last()) + indexed_tokens(
            nodes,
            chunks.last().relative_path@,
        )
    }
}

pub open spec fn capped(total: nat, max: nat) -> nat {
    if total > max {
        max
    } else {
        total
    }
}

/// The result of an export, for display.
#[derive(Debug, Clone)]
pub struct GenerateResult {
    /// The first `PREVIEW_LIMIT` bytes of the document, decoded.
    pub preview_content: String,
    /// The document is longer than the preview.
    pub is_truncated: bool,
    pub stats: AppStats,
}

/// The preview of a document: its first `PREVIEW_LIMIT` bytes, decoded.
pub open spec fn preview_spec(doc: Seq<char>) -> Seq<char> {
    let bytes = encode_utf8(doc);
    lossy_of(
        if bytes.len() > PREVIEW_LIMIT {
            bytes.take(PREVIEW_LIMIT as int)
        } else {
            bytes
        },
    )
}

/// Sums sizes and index token counts over the chunks whose file is in the
/// index; totals stop at the type's maximum.
fn chunk_totals(nodes: &Vec<FileNode>, chunks: &Vec<ProcessedChunk>) -> (r: (u64, usize))
    requires
        crate::state::ids_unique(nodes@),
    ensures
        r.0 == capped(chunk_size_total(nodes@, chunks@), u64::MAX as nat),
        r.1 == capped(chunk_token_total(nodes@, chunks@), usize::MAX as nat),
{
    let mut size: u64 = 0;
    let mut tokens: usize = 0;
    let mut i: usize = 0;
    while i < chunks.len()
        invariant
            i <= chunks.len(),
            crate::state::ids_unique(nodes@),
            size == capped(chunk_size_total(nodes@, chunks@.take(i as int)), u64::MAX as nat),
            tokens == capped(chunk_token_total(nodes@, chunks@.take(i as int)), usize::MAX as nat),
        decreases chunks.len() - i,
    {
        assert(chunks@.take(i + 1).drop_last() =~= chunks@.take(i as int));
        let rel = &chunks[i].relative_path;
        assert(chunks@.take(i + 1).last() == chunks@[i as int]);
        match crate::state::position_of(nodes, rel) {
            Some(k) => {
                size = size.saturating_add(chunks[i].measured_size);
                let t = match nodes[k].token_count {
                    Some(t) => t,
                    None => 0,
                };
                tokens = tokens.saturating_add(t);
                proof {
                    let kk = choose|kk: int| 0 <= kk < nodes@.len() && nodes@[kk].id@ == rel@;
                    assert(kk == k);
                }
            },
            None => {},
        }
        i = i + 1;
    }
    assert(chunks@.take(chunks.len() as int) =~= chunks@);
    (size, tokens)
}

/// The export document and what is shown of it.
pub struct ExportOutput {
    /// The whole document, for the export cache and the output file.
    pub full_content: String,
    pub result: GenerateResult,
}

/// Assembles an export: the header, then the chunks sorted by relative path;
/// the preview holds the first `PREVIEW_LIMIT` bytes; totals count the
/// eligible files, and the size and index token counts of the chunks whose
/// file is in the index.
pub fn assemble_export(
    nodes: &Vec<FileNode>,
    header: &String,
    chunks: Vec<ProcessedChunk>,
    total_files: usize,
) -> (r: ExportOutput)
    requires
        crate::state::ids_unique(nodes@),
    ensures
        r.full_content@ == document_spec(header@, chunks@),
        r.result.preview_content@ == preview_spec(r.full_content@),
        r.result.is_truncated == (encode_utf8(r.full_content@).len() > PREVIEW_LIMIT),
        r.result.stats.files == total_files,
        r.result.stats.size == capped(chunk_size_total(nodes@, chunks@), u64::MAX as nat),
        r.result.stats.tokens == capped(chunk_token_total(nodes@, chunks@), usize::MAX as nat),
{
    let (size, tokens) = chunk_totals(nodes, &chunks);
    let sorted = sort_items(chunks);
    let mut full = header.clone();
    let mut i: usize = 0;
    while i < sorted.len()
        invariant
            i <= sorted.len(),
            full@ == header@ + concat_chunks(sorted@.take(i as int)),
        decreases sorted.len() - i,
    {
        assert(sorted@.take(i + 1).drop_last() =~= sorted@.take(i as int));
        full.append(sorted[i].formatted_content.as_str());
        i = i + 1;
    }
    assert(sorted@.take(sorted.len() as int) =~= sorted@);
    let bytes = full.as_str().as_bytes();
    let is_truncated = bytes.len() > PREVIEW_LIMIT;
    let shown = if is_truncated {
        vstd::slice::slice_subrange(bytes, 0, PREVIEW_LIMIT)
    } else {
        bytes
    };
    proof {
        if is_truncated {
            assert(bytes@.subrange(0, PREVIEW_LIMIT as int) =~= bytes@.take(PREVIEW_LIMIT as int));
        }
    }
    let preview = decode_lossy(shown);
    ExportOutput {
        full_content: full,
        result: GenerateResult {
            preview_content: preview,
            is_truncated,
            stats: AppStats { files: total_files, size, tokens },
        },
    }
}

/// Replaces the export cache with the whole document.
pub fn store_export(state: &mut AppState, full_content: String)
    ensures
        final(state).last_generated_content == Some(full_content),
        final(state).nodes == old(state).nodes,
        final(state).root_path == old(state).root_path,
        final(state).current_scan_id == old(state).current_scan_id,
{
    state.last_generated_content = Some(full_content);
}

/// Why the cached export cannot be handed to a clipboard-style consumer.
pub enum ClipboardError {
    /// No export has been made yet.
    Empty,
    /// The document holds more than `CLIPBOARD_LIMIT_BYTES` bytes; the
    /// number is its size in whole MiB.
    TooLarge(usize),
}

impl ClipboardError {
    pub fn message(&self) -> (r: String)
        ensures
            r@ == match self {
                ClipboardError::Empty => "No content generated yet"@,
                ClipboardError::TooLarge(mb) => "Content too large for clipboard ("@ + decimal(
                    *mb as nat,
                ) + " MB). Maximum size is 10 MB. Please save to file instead."@,
            },
    {
        match self {
            ClipboardError::Empty => String::from_str("No content generated yet"),
            ClipboardError::TooLarge(mb) => {
                let mut s = String::from_str("Content too large for clipboard (");
                let n = decimal_string(*mb as u64);
                s.append(n.as_str());
                s.append(
                    " MB). Maximum size is 10 MB. Please save to file instead.",
                );
                s
            },
        }
    }
}

/// The UTF-8 length of a text, as `str::len` reports it.
pub open spec fn byte_len(s: Seq<char>) -> usize {
    encode_utf8(s).len() as usize
}

/// The cached export, when there is one and it fits the clipboard limit.
pub fn clipboard_payload(state: &AppState) -> (r: Result<String, ClipboardError>)
    ensures
        match state.last_generated_content {
            None => r == Err::<String, ClipboardError>(ClipboardError::Empty),
            Some(c) => if byte_len(c@) > CLIPBOARD_LIMIT_BYTES {
                r == Err::<String, ClipboardError>(
                    ClipboardError::TooLarge(byte_len(c@) / 1048576),
                )
            } else {
                r == Ok::<String, ClipboardError>(c)
            },
        },
{
    match &state.last_generated_content {
        None => Err(ClipboardError::Empty),
        Some(c) => {
            let len = c.as_str().len();
            if len > CLIPBOARD_LIMIT_BYTES {
                Err(ClipboardError::TooLarge(len / 1048576))
            } else {
                Ok(c.clone())
            }
        },
    }
}

// ---------------------------------------------------------------------------
// Stats

/// Tokens computed for `id` by re-reading its file (the last entry for it).
pub open spec fn computed_tokens(computed: Seq<(String, usize)>, id: Seq<char>) -> nat
    decreases computed.len(),
{
    if computed.len() == 0 {
        0
    } else if computed.last().0@ == id {
        computed.last().1 as nat
    } else {
        computed_tokens(computed.drop_last(), id)
    }
}

/// Tokens of a file for the stats: the index's count when known, else the
/// freshly computed one.
pub open spec fn stat_tokens(n: FileNode, computed: Seq<(String, usize)>) -> nat {
    match n.token_count {
        Some(t) => t as nat,
        None => computed_tokens(computed, n.id@),
    }
}

pub open spec fn size_sum(files: Seq<FileNode>) -> nat
    decreases files.len(),
{
    if files.len() == 0 {
        0
    } else {
        size_sum(files.drop_last()) + match files.last().size {
            Some(s) => s as nat,
            None => 0,
        }
    }
}

pub open spec fn token_sum(files: Seq<FileNode>, computed: Seq<(String, usize)>) -> nat
    decreases files.len(),
{
    if files.len() == 0 {
        0
    } else {
        token_sum(files.drop_last(), computed) + stat_tokens(files.last(), computed)
    }
}

/// `(id, path)` of the files whose token count is not known, in order.
pub open spec fn pending_items(files: Seq<FileNode>) -> Seq<(Seq<char>, Seq<char>)>
    decreases files.len(),
{
    if files.len() == 0 {
        Seq::empty()
    } else {
        let rest = pending_items(files.drop_last());
        if files.last().token_count is None {
            rest.push((files.last().id@, files.last().path@))
        } else {
            rest
        }
    }
}

/// The eligible files whose token count is not known yet, as `(id, path)`:
/// a caller re-reads them and passes the counts to `get_stats`.
pub fn files_needing_tokens(state: &AppState) -> (r: Vec<(String, String)>)
    ensures
        crate::scanner::pair_views(r@) == pending_items(eligible_spec(state.nodes@)),
{
    let files = eligible_files(&state.nodes);
    let mut r: Vec<(String, String)> = Vec::new();
    let mut i: usize = 0;
    while i < files.len()
        invariant
            i <= files.len(),
            crate::scanner::pair_views(r@) == pending_items(files@.take(i as int)),
        decreases files.len() - i,
    {
        assert(files@.take(i + 1).drop_last() =~= files@.take(i as int));
        if files[i].token_count.is_none() {
            r.push((files[i].id.clone(), files[i].path.clone()));
            assert(crate::scanner::pair_views(r@) =~= pending_items(files@.take(i as int)).push(
                (files@[i as int].id@, files@[i as int].path@),
            ));
        }
        i = i + 1;
    }
    assert(files@.take(files.len() as int) =~= files@);
    r
}

/// Totals over the eligible files: how many, their indexed sizes (absent
/// counts as zero), and their tokens (the index's count, else the computed
/// one); sums stop at the type's maximum.
pub fn get_stats(state: &AppState, computed: &Vec<(String, usize)>) -> (r: AppStats)
    ensures
        r.files == eligible_spec(state.nodes@).len(),
        r.size == capped(size_sum(eligible_spec(state.nodes@)), u64::MAX as nat),
        r.tokens == capped(token_sum(eligible_spec(state.nodes@), computed@), usize::MAX as nat),
{
    let files = eligible_files(&state.nodes);
    let mut size: u64 = 0;
    let mut tokens: usize = 0;
    let mut i: usize = 0;
    while i < files.len()
        invariant
            i <= files.len(),
            size == capped(size_sum(files@.take(i as int)), u64::MAX as nat),
            tokens == capped(token_sum(files@.take(i as int), computed@), usize::MAX as nat),
        decreases files.len() - i,
    {
        assert(files@.take(i + 1).drop_last() =~= files@.take(i as int));
        assert(files@.take(i + 1).last() == files@[i as int]);
        let s = match files[i].size {
            Some(s) => s,
            None => 0,
        };
        size = size.saturating_add(s);
        let t = match files[i].token_count {
            Some(t) => t,
            None => lookup_computed(computed, &files[i].id),
        };
        tokens = tokens.saturating_add(t);
        i = i + 1;
    }
    assert(files@.take(files.len() as int) =~= files@);
    AppStats { files: files.len(), size, tokens }
}

fn lookup_computed(computed: &Vec<(String, usize)>, id: &String) -> (r: usize)
    ensures
        r == computed_tokens(computed@, id@),
{
    let mut i: usize = computed.len();
    assert(computed@.take(i as int) =~= computed@);
    while i > 0
        invariant
            i <= computed.len(),
            computed_tokens(computed@, id@) == computed_tokens(computed@.take(i as int), id@),
        decreases i,
    {
        assert(computed@.take(i as int).drop_last() =~= computed@.take(i - 1));
        if computed[i - 1].0 == *id {
            return computed[i - 1].1;
        }
        i = i - 1;
    }
    0
}

// ---------------------------------------------------------------------------
// File preview

/// Files larger than this many bytes are previewed from their first bytes only.
pub const MAX_PREVIEW_SIZE: u64 = 102400;

/// Why a file cannot be previewed.
#[derive(Debug, Clone)]
pub enum ReadError {
    /// The index has no node with this id.
    NotFound(String),
    /// The node is a directory.
    IsDirectory,
}

impl ReadError {
    pub fn message(&self) -> (r: String)
        ensures
            r@ == match self {
                ReadError::NotFound(id) => "File not found in index: "@ + id@,
                ReadError::IsDirectory => "Cannot read directory as file"@,
            },
    {
        match self {
            ReadError::NotFound(id) => {
                let mut s = String::from_str("File not found in index: ");
                s.append(id.as_str());
                s
            },
            ReadError::IsDirectory => String::from_str("Cannot read directory as file"),
        }
    }
}

/// The absolute path and the indexed size (zero when unknown) of the file `id`.
pub fn read_file_target(state: &AppState, id: &String) -> (r: Result<(String, u64), ReadError>)
    ensures
        match r {
            Ok((path, size)) => exists|k: int|
                0 <= k < state.nodes@.len() && state.nodes@[k].id@ == id@
                    && !state.nodes@[k].is_directory && state.nodes@[k].path == path && size == match state.nodes@[k].size {
                    Some(s) => s,
                    None => 0,
                },
            Err(ReadError::NotFound(x)) => x == *id && !crate::state::has_id(state.nodes@, id@),
            Err(ReadError::IsDirectory) => exists|k: int|
                0 <= k < state.nodes@.len() && state.nodes@[k].id@ == id@ && state.nodes@[k].is_directory,
        },
{
    match crate::state::position_of(&state.nodes, id) {
        None => Err(ReadError::NotFound(id.clone())),
        Some(k) => {
            let n = &state.nodes[k];
            if n.is_directory {
                Err(ReadError::IsDirectory)
            } else {
                let size = match n.size {
                    Some(s) => s,
                    None => 0,
                };
                Ok((n.path.clone(), size))
            }
        },
    }
}

/// Whether a file of this size is previewed from its first
/// `MAX_PREVIEW_SIZE` bytes only.
pub fn preview_truncates(size: u64) -> (r: bool)
    ensures
        r == (size > MAX_PREVIEW_SIZE),
{
    size > MAX_PREVIEW_SIZE
}

/// The preview text of a file: for a truncated read, the decoded bytes and a
/// note with the file's size; otherwise the binary placeholder or the decoded
/// content.
pub open spec fn file_view_spec(size: u64, bytes: Seq<u8>, truncated: bool) -> Seq<char> {
    if truncated {
        lossy_of(bytes) + "\n\n--- TRUNCATED (File too large: "@ + decimal(size as nat) + " bytes) ---"@
    } else if is_binary(bytes) {
        "*Binary file*"@
    } else {
        lossy_of(bytes)
    }
}

pub fn file_view_text(size: u64, bytes: &[u8], truncated: bool) -> (r: String)
    ensures
        r@ == file_view_spec(size, bytes@, truncated),
{
    if truncated {
        let mut s = decode_lossy(bytes);
        s.append("\n\n--- TRUNCATED (File too large: ");
        let n = decimal_string(size);
        s.append(n.as_str());
        s.append(" bytes) ---");
        s
    } else if looks_binary(bytes) {
        String::from_str("*Binary file*")
    } else {
        decode_lossy(bytes)
    }
}

// ---------------------------------------------------------------------------
// Laws

/// A file larger than the configured maximum is not read: `needs_content`
/// refuses it, its chunk is the skip placeholder naming its size and the
/// limit, and the chunk carries its size so that the export total counts it.
pub proof fn lemma_oversized_file_skipped(cfg: AppConfig, rel: Seq<char>, size: u64)
    requires
        size > cfg.max_file_size,
    ensures
        !(size <= cfg.max_file_size),
        chunk_spec(cfg, rel, FileProbe::Measured(size)) == (
            skipped_text(rel, size, cfg.max_file_size),
            size,
        ),
{
}

/// Content with a zero byte among its first 1 KiB is binary for analysis and
/// export alike: it counts zero tokens, and the export writes the binary
/// placeholder instead of its text.
pub proof fn lemma_binary_content_everywhere(bytes: Vec<u8>, i: int)
    requires
        0 <= i < bytes@.len(),
        i < crate::text::BINARY_PROBE_LEN,
        bytes@[i] == 0,
    ensures
        content_tokens(bytes@) == 0,
        content_text(Some(bytes)) == "*Binary file*"@,
{
    assert(is_binary(bytes@));
}

/// The document does not depend on the order in which the chunks were
/// produced: any two arrangements of the same chunks, whose relative paths are
/// distinct, give the same document.
pub proof fn lemma_export_order_independent(
    header: Seq<char>,
    a: Seq<ProcessedChunk>,
    b: Seq<ProcessedChunk>,
)
    requires
        a.to_multiset() == b.to_multiset(),
        forall|i: int, j: int|
            0 <= i < a.len() && 0 <= j < a.len() && i != j ==> a[i].relative_path@
                != a[j].relative_path@,
    ensures
        document_spec(header, a) == document_spec(header, b),
{
    lemma_sorted_spec(a);
    lemma_sorted_spec(b);
    let sa = sorted_spec(a);
    let sb = sorted_spec(b);
    sa.to_multiset_ensures();
    a.to_multiset_ensures();
    assert forall|i: int, j: int|
        0 <= i < sa.len() && 0 <= j < sa.len() && sa[i].precedes_spec(&sa[j])
            && sa[j].precedes_spec(&sa[i]) implies sa[i] == sa[j] by {
        lemma_lex_antisym(sa[i].relative_path@, sa[j].relative_path@);
        assert(sa.contains(sa[i]));
        assert(sa.contains(sa[j]));
        assert(a.to_multiset().count(sa[i]) > 0);
        assert(a.to_multiset().count(sa[j]) > 0);
        assert(a.contains(sa[i]));
        assert(a.contains(sa[j]));
        let p = choose|p: int| 0 <= p < a.len() && a[p] == sa[i];
        let q = choose|q: int| 0 <= q < a.len() && a[q] == sa[j];
        assert(p == q);
    }
    assert(ties_are_equal(sa));
    lemma_sorted_unique(sa, sb);
}

} // verus!
