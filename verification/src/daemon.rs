//! The decisions of the folder watcher: which new files to process, how
//! to wait for a file that cannot be opened yet, and what counts as done.

use vstd::prelude::*;
use vstd::arithmetic::power2::{pow2, lemma_pow2_unfold, lemma2_to64};
use crate::config::ProcessingConfig;
use crate::image_processor::ImageProcessor;
use crate::paths::{paths_equal, same_path};
use crate::text::matches_prefix;

verus! {

/// Watches a folder and processes each new image that appears in it.
pub struct DaemonWatcher {
    config: ProcessingConfig,
    processor: ImageProcessor,
}

impl DaemonWatcher {
    pub closed spec fn spec_config(&self) -> ProcessingConfig {
        self.config
    }

    pub closed spec fn spec_processor(&self) -> ImageProcessor {
        self.processor
    }

    /// A watcher that processes new files as the configuration says; its
    /// processor works with a copy of the same configuration.
    pub fn new(config: ProcessingConfig) -> (w: DaemonWatcher)
        ensures
            w.spec_config() == config,
            w.spec_processor().spec_config() == config,
    {
        let processor = ImageProcessor::new(config.clone());
        DaemonWatcher { config, processor }
    }

    pub fn config(&self) -> (c: &ProcessingConfig)
        ensures
            *c == self.spec_config(),
    {
        &self.config
    }

    pub fn processor(&self) -> (p: &ImageProcessor)
        ensures
            *p == self.spec_processor(),
    {
        &self.processor
    }
}

/// The paths the watcher treats as done: those present when watching
/// began and every file it has written since.
pub struct ProcessedFiles {
    paths: Vec<String>,
}

impl View for ProcessedFiles {
    type V = Seq<Seq<char>>;

    closed spec fn view(&self) -> Seq<Seq<char>> {
        self.paths@.map_values(|s: String| s@)
    }
}

/// Whether `path` names the same file as one of `done`.
pub open spec fn is_done(done: Seq<Seq<char>>, path: Seq<char>) -> bool {
    exists|i: int| 0 <= i < done.len() && same_path(#[trigger] done[i], path)
}

impl ProcessedFiles {
    /// The paths found in the folder when watching begins.
    pub fn from_existing(paths: Vec<String>) -> (p: ProcessedFiles)
        ensures
            p@ == paths@.map_values(|s: String| s@),
    {
        ProcessedFiles { paths }
    }

    pub fn len(&self) -> (n: usize)
        ensures
            n == self@.len(),
    {
        self.paths.len()
    }

    /// Whether `path` is one of the done paths, compared as paths.
    pub fn contains(&self, path: &str) -> (b: bool)
        ensures
            b == is_done(self@, path@),
            self@.contains(path@) ==> b,
    {
        let mut i: usize = 0;
        while i < self.paths.len()
            invariant
                i <= self.paths.len(),
                self@ == self.paths@.map_values(|s: String| s@),
                forall|j: int| 0 <= j < i ==> !same_path(#[trigger] self@[j], path@),
                forall|j: int| 0 <= j < i ==> #[trigger] self@[j] != path@,
            decreases self.paths.len() - i,
        {
            if paths_equal(self.paths[i].as_str(), path) {
                assert(self@[i as int] == self.paths[i as int]@);
                return true;
            }
            assert(self@[i as int] == self.paths[i as int]@);
            i = i + 1;
        }
        false
    }

    /// Records the files written for one input.
    pub fn extend(&mut self, outputs: Vec<String>)
        ensures
            final(self)@ == old(self)@ + outputs@.map_values(|s: String| s@),
    {
        let mut outputs = outputs;
        let ghost start = self.paths@;
        let ghost added = outputs@;
        self.paths.append(&mut outputs);
        proof {
            assert(self.paths@.map_values(|s: String| s@) =~= start.map_values(|s: String| s@)
                + added.map_values(|s: String| s@));
        }
    }
}

/// After recording the files of an input, each of them is among the done
/// paths, so a later event for it is skipped.
pub proof fn recorded_outputs_are_done(done: Seq<Seq<char>>, outputs: Seq<Seq<char>>, k: int)
    requires
        0 <= k < outputs.len(),
    ensures
        (done + outputs).contains(outputs[k]),
{
    assert((done + outputs)[done.len() + k] == outputs[k]);
}

/// How many failed attempts to open a new file are each followed by a wait.
pub const MAX_OPEN_RETRIES: u32 = 10;

/// What to do after an attempt to open a new file failed.
#[derive(Debug, Clone, Copy, PartialEq, Eq, Structural)]
pub enum OpenRetry {
    /// Count the attempt and wait `delay_ms` milliseconds before the next one.
    Wait { attempts: u32, delay_ms: u64 },
    /// Report the failure and give up on the file: it is not processed,
    /// and the watcher goes on to the next event.
    GiveUp,
}

/// The wait after the `attempt`-th failure: 100 ms doubled `attempt` times.
pub open spec fn backoff_ms(attempt: nat) -> nat {
    100 * pow2(attempt)
}

/// The step after a failed open, when `attempts` failures have been counted
/// so far: below the limit, count one more and wait 2^count * 100 ms;
/// at the limit, give up on the file.
pub fn after_failed_open(attempts: u32) -> (step: OpenRetry)
    ensures
        attempts < MAX_OPEN_RETRIES ==> step == (OpenRetry::Wait {
            attempts: (attempts + 1) as u32,
            delay_ms: backoff_ms((attempts + 1) as nat) as u64,
        }),
        attempts >= MAX_OPEN_RETRIES ==> step == OpenRetry::GiveUp,
        step == open_step(attempts),
{
    if attempts < MAX_OPEN_RETRIES {
        let next = attempts + 1;
        let mut delay: u64 = 100;
        let mut k: u32 = 0;
        proof {
            lemma2_to64();
        }
        while k < next
            invariant
                k <= next <= 10,
                delay == 100 * pow2(k as nat),
                pow2(10) == 1024,
            decreases next - k,
        {
            proof {
                lemma_pow2_unfold((k + 1) as nat);
                vstd::arithmetic::power2::lemma_pow2_strictly_increases(k as nat, 10);
            }
            delay = delay * 2;
            k = k + 1;
        }
        OpenRetry::Wait { attempts: next, delay_ms: delay }
    } else {
        OpenRetry::GiveUp
    }
}

/// Each wait after a failed open is twice as long as the one before.
pub proof fn waits_double(attempt: nat)
    ensures
        backoff_ms(attempt + 1) == 2 * backoff_ms(attempt),
{
    lemma_pow2_unfold(attempt + 1);
}

/// The step that `after_failed_open` takes after `attempts` counted failures.
pub open spec fn open_step(attempts: u32) -> OpenRetry {
    if attempts < MAX_OPEN_RETRIES {
        OpenRetry::Wait { attempts: (attempts + 1) as u32, delay_ms: backoff_ms((attempts + 1) as nat) as u64 }
    } else {
        OpenRetry::GiveUp
    }
}

/// How many waits come before the watcher gives up on a file that never
/// opens, when `attempts` failures have been counted: follow the steps of
/// `open_step` until one gives up.
pub open spec fn waits_before_giving_up(attempts: u32) -> nat
    decreases MAX_OPEN_RETRIES - attempts,
{
    match open_step(attempts) {
        OpenRetry::Wait { attempts: next, .. } => if next > attempts {
            1 + waits_before_giving_up(next)
        } else {
            0
        },
        OpenRetry::GiveUp => 0,
    }
}

/// A file that never opens is given up on: from the first failure, the
/// watcher waits exactly `MAX_OPEN_RETRIES` times (each time counting one
/// more failure) and then gives up, so it opens the file at most
/// `MAX_OPEN_RETRIES + 1` times.
pub proof fn open_failures_give_up(attempts: u32)
    requires
        attempts <= MAX_OPEN_RETRIES,
    ensures
        waits_before_giving_up(attempts) == MAX_OPEN_RETRIES - attempts,
        open_step(MAX_OPEN_RETRIES) == OpenRetry::GiveUp,
    decreases MAX_OPEN_RETRIES - attempts,
{
    if attempts < MAX_OPEN_RETRIES {
        open_failures_give_up((attempts + 1) as u32);
    }
}

/// Whether a file-system event is queued for processing: it must report a
/// newly created file whose name starts with `prefix`.
pub fn should_queue(created: bool, file_name: Option<&str>, prefix: &str) -> (b: bool)
    ensures
        b == (created && match file_name {
            Some(name) => prefix@.is_prefix_of(name@),
            None => false,
        }),
{
    if !created {
        return false;
    }
    match file_name {
        Some(name) => matches_prefix(name, prefix),
        None => false,
    }
}

} // verus!
