//! Per-file measurement (binary detection and token counting) and the
//! epoch-guarded batching of the background analysis.
use vstd::prelude::*;
use vstd::utf8::encode_utf8;

use crate::models::FileUpdate;
use crate::text::{is_binary, looks_binary};

verus! {

/// Number of updates gathered before a batch is handed out.
pub const BATCH_SIZE: usize = 100;

/// What `String::from_utf8_lossy` returns for these bytes.
pub uninterp spec fn lossy_of(bytes: Seq<u8>) -> Seq<char>;

/// Relies on `String::from_utf8_lossy`: decodes UTF-8, replacing each invalid
/// sequence with U+FFFD; the result depends on the bytes alone.
#[verifier::external_body]
pub(crate) fn decode_lossy(bytes: &[u8]) -> (r: String)
    ensures
        r@ == lossy_of(bytes@),
{
    String::from_utf8_lossy(bytes).to_string()
}

/// The number of cl100k tokens of a text, or `None` when the tokenizer could
/// not be built or could not encode the text.
pub uninterp spec fn cl100k_count(text: Seq<char>) -> Option<usize>;

/// Relies on `tiktoken_rs::cl100k_base` and `CoreBPE::encode` with the
/// tokenizer's special tokens allowed (what `encode_with_special_tokens`
/// does, without its panic on an encoding error): the count depends on the
/// text alone, as the tokenizer is built from data compiled into the crate.
#[verifier::external_body]
fn cl100k_token_count(text: &str) -> (r: Option<usize>)
    ensures
        r == cl100k_count(text@),
{
    match tiktoken_rs::cl100k_base() {
        Ok(bpe) => match bpe.encode(text, &bpe.special_tokens()) {
            Ok((tokens, _)) => Some(tokens.len()),
            Err(_) => None,
        },
        Err(_) => None,
    }
}

/// Token count of a text: the cl100k count, or a quarter of its UTF-8 length
/// when the tokenizer is unavailable.
pub open spec fn token_estimate(text: Seq<char>) -> nat {
    match cl100k_count(text) {
        Some(n) => n as nat,
        None => (encode_utf8(text).len() as usize) as nat / 4,
    }
}

pub fn count_tokens(content: &str) -> (r: usize)
    ensures
        r == token_estimate(content@),
{
    match cl100k_token_count(content) {
        Some(n) => n,
        None => content.len() / 4,
    }
}

/// Tokens of file content: zero for binary content, else the estimate of its
/// lossy UTF-8 decoding.
pub open spec fn content_tokens(bytes: Seq<u8>) -> nat {
    if is_binary(bytes) {
        0
    } else {
        token_estimate(lossy_of(bytes))
    }
}

/// Token count of file content; binary content counts as zero and is not
/// decoded.
pub fn analyze_content(bytes: &[u8]) -> (r: usize)
    ensures
        r == content_tokens(bytes@),
{
    if looks_binary(bytes) {
        0
    } else {
        let text = decode_lossy(bytes);
        count_tokens(text.as_str())
    }
}

/// The update for one analysed file; a failed stat counts as size zero and a
/// failed read as zero tokens.
pub fn file_update(id: String, size: Option<u64>, content: Option<Vec<u8>>) -> (r: FileUpdate)
    ensures
        r.id == id,
        r.size == match size {
            Some(s) => s,
            None => 0,
        },
        r.token_count == match content {
            Some(b) => content_tokens(b@),
            None => 0,
        },
{
    let size = match size {
        Some(s) => s,
        None => 0,
    };
    let token_count = match content {
        Some(b) => analyze_content(b.as_slice()),
        None => 0,
    };
    FileUpdate { id, size, token_count }
}

pub open spec fn update_view(u: FileUpdate) -> (Seq<char>, u64, usize) {
    (u.id@, u.size, u.token_count)
}

pub open spec fn updates_view(s: Seq<FileUpdate>) -> Seq<(Seq<char>, u64, usize)> {
    s.map_values(|u: FileUpdate| update_view(u))
}

/// The abstract state of an analysis run.
pub struct RunView {
    pub epoch: u32,
    pub batch: Seq<(Seq<char>, u64, usize)>,
    pub stopped: bool,
}

/// What one step makes observable: a batch to emit, if any, and whether the
/// run reports completion.
pub type Output = (Option<Seq<(Seq<char>, u64, usize)>>, bool);

/// An event seen by a run: the current epoch, with a unit's result
/// (`Some(result)`; `Some(None)` for a unit that was skipped) or the end of
/// the stream (`None`).
pub type Event = (u32, Option<Option<(Seq<char>, u64, usize)>>);

/// One step of a run.
pub open spec fn run_step(r: RunView, ev: Event) -> (RunView, Output) {
    let (current, item) = ev;
    if r.stopped || current != r.epoch {
        (RunView { stopped: true, ..r }, (None, false))
    } else {
        match item {
            Some(u) => {
                let b = match u {
                    Some(x) => r.batch.push(x),
                    None => r.batch,
                };
                if b.len() >= BATCH_SIZE {
                    (RunView { batch: Seq::empty(), ..r }, (Some(b), false))
                } else {
                    (RunView { batch: b, ..r }, (None, false))
                }
            },
            None => (
                RunView { batch: Seq::empty(), stopped: true, ..r },
                (
                    if r.batch.len() > 0 {
                        Some(r.batch)
                    } else {
                        None
                    },
                    true,
                ),
            ),
        }
    }
}

/// What a run makes observable over a sequence of events.
pub open spec fn run_outputs(r: RunView, events: Seq<Event>) -> Seq<Output>
    decreases events.len(),
{
    if events.len() == 0 {
        Seq::empty()
    } else {
        let (next, out) = run_step(r, events[0]);
        seq![out] + run_outputs(next, events.drop_first())
    }
}

/// A run of an epoch that is no longer current makes nothing observable: once
/// a newer epoch has started (or the run has stopped), every later step emits
/// no batch and no completion.
pub proof fn lemma_superseded_run_is_silent(r: RunView, events: Seq<Event>)
    requires
        r.stopped || forall|k: int| 0 <= k < events.len() ==> (#[trigger] events[k]).0 != r.epoch,
    ensures
        forall|k: int|
            0 <= k < run_outputs(r, events).len() ==> #[trigger] run_outputs(r, events)[k] == (
            None::<Seq<(Seq<char>, u64, usize)>>,
            false,
        ),
        run_outputs(r, events).len() == events.len(),
    decreases events.len(),
{
    if events.len() > 0 {
        let (next, out) = run_step(r, events[0]);
        assert(next.stopped);
        lemma_superseded_run_is_silent(next, events.drop_first());
        let outs = run_outputs(r, events);
        assert forall|k: int| 0 <= k < outs.len() implies #[trigger] outs[k] == (
            None::<Seq<(Seq<char>, u64, usize)>>,
            false,
        ) by {
            if k > 0 {
                assert(outs[k] == run_outputs(next, events.drop_first())[k - 1]);
            }
        }
    }
}

/// What a step of a run asks its driver to do.
pub enum AnalysisAction {
    /// Nothing to emit yet.
    Continue,
    /// Emit this batch of updates.
    Emit(Vec<FileUpdate>),
    /// Emit this batch if it is not empty, then report completion.
    Finish(Vec<FileUpdate>),
    /// Emit nothing; the run is over.
    Halt,
}

pub open spec fn action_output(a: AnalysisAction) -> Output {
    match a {
        AnalysisAction::Continue => (None, false),
        AnalysisAction::Emit(v) => (Some(updates_view(v@)), false),
        AnalysisAction::Finish(v) => (
            if v@.len() > 0 {
                Some(updates_view(v@))
            } else {
                None
            },
            true,
        ),
        AnalysisAction::Halt => (None, false),
    }
}

/// The batching state of the background analysis for one scan epoch.
pub struct AnalysisRun {
    pub epoch: u32,
    pub batch: Vec<FileUpdate>,
    pub stopped: bool,
}

impl AnalysisRun {
    pub open spec fn view(&self) -> RunView {
        RunView { epoch: self.epoch, batch: updates_view(self.batch@), stopped: self.stopped }
    }

    /// A run for the scan that minted `epoch`.
    pub fn new(epoch: u32) -> (r: AnalysisRun)
        ensures
            r.view() == (RunView { epoch: epoch, batch: Seq::empty(), stopped: false }),
    {
        let r = AnalysisRun { epoch, batch: Vec::new(), stopped: false };
        assert(r.view().batch =~= Seq::empty());
        r
    }

    /// Whether a unit of work may start while `current` is the current epoch.
    pub fn may_start(&self, current: u32) -> (r: bool)
        ensures
            r == (!self.stopped && current == self.epoch),
    {
        !self.stopped && current == self.epoch
    }

    /// Takes a unit's result (`None` for a unit that was skipped).
    pub fn on_result(&mut self, current: u32, update: Option<FileUpdate>) -> (a: AnalysisAction)
        ensures
            (final(self).view(), action_output(a)) == run_step(
                old(self).view(),
                (
                    current,
                    Some(
                        match update {
                            Some(u) => Some(update_view(u)),
                            None => None,
                        },
                    ),
                ),
            ),
    {
        if self.stopped || current != self.epoch {
            self.stopped = true;
            return AnalysisAction::Halt;
        }
        let ghost b0 = updates_view(self.batch@);
        match update {
            Some(u) => {
                self.batch.push(u);
                assert(updates_view(self.batch@) =~= b0.push(update_view(u)));
            },
            None => {},
        }
        if self.batch.len() >= BATCH_SIZE {
            let out = self.batch.split_off(0);
            assert(updates_view(self.batch@) =~= Seq::empty());
            AnalysisAction::Emit(out)
        } else {
            AnalysisAction::Continue
        }
    }

    /// The stream of units has ended.
    pub fn on_end(&mut self, current: u32) -> (a: AnalysisAction)
        ensures
            (final(self).view(), action_output(a)) == run_step(old(self).view(), (current, None)),
    {
        if self.stopped || current != self.epoch {
            self.stopped = true;
            return AnalysisAction::Halt;
        }
        let out = self.batch.split_off(0);
        self.stopped = true;
        assert(updates_view(self.batch@) =~= Seq::empty());
        AnalysisAction::Finish(out)
    }
}

} // verus!
