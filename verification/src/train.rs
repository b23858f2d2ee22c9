//! The course of a training run: cutting the corpus into batches, the order of
//! the steps, their targets, and the names of checkpoints.

use crate::decimal::to_decimal;
use vstd::prelude::*;
use vstd::slice::slice_subrange;
use vstd::string::{StrSliceExecFns, StringExecFns};

verus! {

use crate::decimal::decimal;
use crate::memory::VOCAB_SIZE;

/// A piece of the corpus with the token id for each byte.
#[derive(Debug, Clone)]
pub struct Batch {
    pub bytes: Vec<u8>,
    pub bpe_ids: Vec<u32>,
}

/// The number of pieces of `window` items into which `len` items are cut.
pub open spec fn batch_count(len: int, window: int) -> int {
    (len + window - 1) / window
}

/// Where piece `i` begins.
pub open spec fn batch_start(i: int, window: int) -> int {
    i * window
}

/// Where piece `i` ends.
pub open spec fn batch_end(i: int, window: int, len: int) -> int {
    if i * window + window < len {
        i * window + window
    } else {
        len
    }
}

/// `batch` is piece `i` of the corpus.
pub open spec fn is_piece(
    batch: Batch,
    bytes: Seq<u8>,
    bpe_ids: Seq<u32>,
    window: int,
    i: int,
) -> bool {
    let start = batch_start(i, window);
    let end = batch_end(i, window, bytes.len() as int);
    &&& start <= end
    &&& batch.bytes@ == bytes.subrange(start, end)
    &&& batch.bpe_ids@ == bpe_ids.subrange(start, end)
}

/// Cut a corpus into pieces of `window` bytes; the last one may be shorter.
pub fn build_batches(bytes: &[u8], bpe_ids: &[u32], window: usize) -> (batches: Vec<Batch>)
    requires
        window > 0,
        bytes@.len() == bpe_ids@.len(),
    ensures
        batches@.len() == batch_count(bytes@.len() as int, window as int),
        forall|i: int|
            0 <= i < batches@.len() ==> is_piece(
                #[trigger] batches@[i],
                bytes@,
                bpe_ids@,
                window as int,
                i,
            ),
        (batches@.len() - 1) * window < bytes@.len() <= batches@.len() * window,
        forall|i: int|
            0 <= i < batches@.len() ==> {
                let piece = #[trigger] batches@[i];
                &&& piece.bytes@.len() == piece.bpe_ids@.len()
                &&& piece.bytes@.len() == (if i < batches@.len() - 1 {
                    window as int
                } else {
                    bytes@.len() - i * window
                })
                &&& forall|j: int|
                    0 <= j < piece.bytes@.len() ==> #[trigger] piece.bytes@[j] == bytes@[i * window
                        + j]
                &&& forall|j: int|
                    0 <= j < piece.bytes@.len() ==> #[trigger] piece.bpe_ids@[j] == bpe_ids@[i
                        * window + j]
            },
{
    assert(bytes.len() == bytes@.len());
    let mut batches: Vec<Batch> = Vec::new();
    let mut start: usize = 0;
    assert(0 * window == 0) by (nonlinear_arith);
    while start < bytes.len()
        invariant
            window > 0,
            bytes@.len() == bpe_ids@.len() == bytes.len(),
            start <= bytes.len(),
            start == batches@.len() * window || (start == bytes.len() && batches@.len() > 0 && (
            batches@.len() - 1) * window < start <= batches@.len() * window),
            forall|i: int|
                0 <= i < batches@.len() ==> is_piece(
                    #[trigger] batches@[i],
                    bytes@,
                    bpe_ids@,
                    window as int,
                    i,
                ),
        decreases bytes.len() - start,
    {
        let ghost n = batches@.len();
        let end: usize = if bytes.len() - start > window {
            start + window
        } else {
            bytes.len()
        };
        assert((n + 1) * window == n * window + window) by (nonlinear_arith);
        let mut piece: Vec<u8> = Vec::with_capacity(end - start);
        piece.extend_from_slice(slice_subrange(bytes, start, end));
        let mut ids: Vec<u32> = Vec::with_capacity(end - start);
        ids.extend_from_slice(slice_subrange(bpe_ids, start, end));
        assert(piece@ =~= bytes@.subrange(start as int, end as int));
        assert(ids@ =~= bpe_ids@.subrange(start as int, end as int));
        batches.push(Batch { bytes: piece, bpe_ids: ids });
        start = end;
    }
    proof {
        let n = batches@.len() as int;
        let len = bytes@.len() as int;
        let w = window as int;
        assert((n - 1) * w == n * w - w) by (nonlinear_arith);
        pieces_in_full(batches@, bytes@, bpe_ids@, w);
        assert(n == batch_count(len, w)) by {
            if len == n * w {
                assert((n * w + w - 1) / w == n) by (nonlinear_arith)
                    requires
                        w > 0,
                ;
            } else {
                assert((len + w - 1) / w == n) by (nonlinear_arith)
                    requires
                        w > 0,
                        (n - 1) * w < len <= n * w,
                ;
            }
        }
    }
    batches
}

/// Every piece but the last has `window` bytes, the last one what is left, and
/// byte `j` of piece `i` is byte `i * window + j` of the corpus, with its id.
pub proof fn pieces_in_full(
    batches: Seq<Batch>,
    bytes: Seq<u8>,
    bpe_ids: Seq<u32>,
    window: int,
)
    requires
        window > 0,
        bytes.len() == bpe_ids.len(),
        (batches.len() - 1) * window < bytes.len() <= batches.len() * window,
        forall|i: int|
            0 <= i < batches.len() ==> is_piece(
                #[trigger] batches[i],
                bytes,
                bpe_ids,
                window,
                i,
            ),
    ensures
        forall|i: int|
            0 <= i < batches.len() ==> {
                let piece = #[trigger] batches[i];
                &&& piece.bytes@.len() == piece.bpe_ids@.len()
                &&& piece.bytes@.len() == (if i < batches.len() - 1 {
                    window
                } else {
                    bytes.len() - i * window
                })
                &&& forall|j: int|
                    0 <= j < piece.bytes@.len() ==> #[trigger] piece.bytes@[j] == bytes[i * window
                        + j]
                &&& forall|j: int|
                    0 <= j < piece.bytes@.len() ==> #[trigger] piece.bpe_ids@[j] == bpe_ids[i
                        * window + j]
            },
{
    assert forall|i: int| 0 <= i < batches.len() implies {
        let piece = #[trigger] batches[i];
        &&& piece.bytes@.len() == piece.bpe_ids@.len()
        &&& piece.bytes@.len() == (if i < batches.len() - 1 {
            window
        } else {
            bytes.len() - i * window
        })
        &&& forall|j: int|
            0 <= j < piece.bytes@.len() ==> #[trigger] piece.bytes@[j] == bytes[i * window + j]
        &&& forall|j: int|
            0 <= j < piece.bytes@.len() ==> #[trigger] piece.bpe_ids@[j] == bpe_ids[i * window + j]
    } by {
        assert(is_piece(batches[i], bytes, bpe_ids, window, i));
        assert(0 <= i * window) by (nonlinear_arith)
            requires
                0 <= i,
                0 < window,
        ;
        if i < batches.len() - 1 {
            let n = batches.len() as int;
            assert(i * window + window <= (n - 1) * window) by (nonlinear_arith)
                requires
                    i + 1 <= n - 1,
                    0 < window,
            ;
        } else {
            let n = batches.len() as int;
            assert(n * window == i * window + window) by (nonlinear_arith)
                requires
                    n == i + 1,
            ;
        }
    }
}

/// The number of pieces is the least that holds the whole corpus.
pub proof fn pieces_are_as_few_as_can_be(len: int, window: int)
    requires
        len >= 0,
        window > 0,
    ensures
        (batch_count(len, window) - 1) * window < len <= batch_count(len, window) * window,
{
    let n = batch_count(len, window);
    vstd::arithmetic::div_mod::lemma_fundamental_div_mod(len + window - 1, window);
    assert(window * n == n * window) by (nonlinear_arith);
    assert((n - 1) * window == n * window - window) by (nonlinear_arith);
}

/// The first `n` pieces, one after the other.
pub open spec fn joined(batches: Seq<Batch>, n: nat) -> Seq<u8>
    decreases n,
{
    if n == 0 {
        Seq::empty()
    } else {
        joined(batches, (n - 1) as nat) + batches[n - 1].bytes@
    }
}

/// The pieces put together again are the corpus.
pub proof fn batches_cover_corpus(
    batches: Seq<Batch>,
    bytes: Seq<u8>,
    bpe_ids: Seq<u32>,
    window: int,
    n: nat,
)
    requires
        window > 0,
        bytes.len() == bpe_ids.len(),
        batches.len() == batch_count(bytes.len() as int, window),
        forall|i: int|
            0 <= i < batches.len() ==> is_piece(
                #[trigger] batches[i],
                bytes,
                bpe_ids,
                window,
                i,
            ),
        n <= batches.len(),
    ensures
        n < batches.len() ==> joined(batches, n) == bytes.take(n * window),
        n == batches.len() ==> joined(batches, n) == bytes,
    decreases n,
{
    let len = bytes.len() as int;
    let count = batches.len() as int;
    vstd::arithmetic::div_mod::lemma_fundamental_div_mod(len + window - 1, window);
    assert(window * count == count * window) by (nonlinear_arith);
    assert(len <= count * window < len + window);
    if n == 0 {
        assert(0 * window == 0) by (nonlinear_arith);
        assert(bytes.take(0) =~= Seq::<u8>::empty());
        if count == 0 {
            assert(bytes =~= Seq::<u8>::empty());
        }
    } else {
        let m = (n - 1) as nat;
        batches_cover_corpus(batches, bytes, bpe_ids, window, m);
        assert(is_piece(batches[n - 1], bytes, bpe_ids, window, n - 1));
        assert((n - 1) * window + window == n * window) by (nonlinear_arith);
        if n < count {
            assert(n * window <= (count - 1) * window) by (nonlinear_arith)
                requires
                    n <= count - 1,
                    window > 0,
            ;
            assert((count - 1) * window + window == count * window) by (nonlinear_arith);
            assert(joined(batches, n) =~= bytes.take(n * window));
        } else {
            assert(joined(batches, n) =~= bytes);
        }
    }
}

/// The token that a position should predict: the next byte.
pub fn target_token(bytes: &[u8], t: usize) -> (target: usize)
    requires
        t + 1 < bytes@.len(),
    ensures
        target == bytes@[t + 1],
{
    assert(bytes.len() == bytes@.len());
    bytes[t + 1] as usize % VOCAB_SIZE
}

/// What a training run does next.
#[derive(Debug, Clone, Copy, PartialEq, Eq, Structural)]
pub enum Action {
    /// Run position `t` of a batch against its target, and report the losses
    /// where `log` is set.
    Step { batch: usize, t: usize, target: usize, log: bool },
    /// Forget the state at the end of a batch.
    EndBatch,
    Done,
}

/// Where a training run stands.
#[derive(Debug, Clone, Copy, PartialEq, Eq, Structural)]
pub struct Progress {
    pub batch: usize,
    pub t: usize,
    /// The number of steps taken.
    pub global_step: usize,
}

/// The number of steps from position `t` of a batch on.
pub open spec fn steps_in(batch: Batch, t: int) -> int {
    if t + 1 < batch.bytes@.len() {
        batch.bytes@.len() - 1 - t
    } else {
        0
    }
}

/// The number of steps in the first `n` batches.
pub open spec fn steps_before(batches: Seq<Batch>, n: nat) -> int
    decreases n,
{
    if n == 0 {
        0
    } else {
        steps_before(batches, (n - 1) as nat) + steps_in(batches[n - 1], 0)
    }
}

/// What comes next: the steps of a batch while there is a next byte, then its
/// end, and the end of the run behind the last batch. Every `log_every`-th step
/// is reported.
pub open spec fn next_action(
    progress: Progress,
    batches: Seq<Batch>,
    log_every: int,
) -> Action {
    if progress.batch >= batches.len() {
        Action::Done
    } else {
        let bytes = batches[progress.batch as int].bytes@;
        if progress.t + 1 < bytes.len() {
            Action::Step {
                batch: progress.batch,
                t: progress.t,
                target: bytes[progress.t + 1] as usize,
                log: progress.global_step as int % log_every == 0,
            }
        } else {
            Action::EndBatch
        }
    }
}

/// Where a run stands once an action is done.
pub open spec fn after(progress: Progress, action: Action) -> Progress {
    match action {
        Action::Step { .. } => Progress {
            batch: progress.batch,
            t: (progress.t + 1) as usize,
            global_step: (progress.global_step + 1) as usize,
        },
        Action::EndBatch => Progress {
            batch: (progress.batch + 1) as usize,
            t: 0,
            global_step: progress.global_step,
        },
        Action::Done => progress,
    }
}

impl Progress {
    pub fn start() -> (out: Self)
        ensures
            out == (Progress { batch: 0, t: 0, global_step: 0 }),
    {
        Progress { batch: 0, t: 0, global_step: 0 }
    }

    /// What comes next.
    pub fn next(&self, batches: &[Batch], log_every: usize) -> (action: Action)
        requires
            log_every > 0,
        ensures
            action == next_action(*self, batches@, log_every as int),
            action is Done <==> self.batch >= batches@.len(),
            action is Step <==> self.batch < batches@.len() && self.t + 1
                < batches@[self.batch as int].bytes@.len(),
            action matches Action::Step { batch, t, target, log } ==> {
                &&& batch == self.batch
                &&& t == self.t
                &&& target == batches@[self.batch as int].bytes@[self.t + 1]
                &&& log <==> self.global_step as int % log_every as int == 0
            },
    {
        if self.batch >= batches.len() {
            return Action::Done;
        }
        let bytes = &batches[self.batch].bytes;
        if bytes.len() >= 1 && self.t < bytes.len() - 1 {
            Action::Step {
                batch: self.batch,
                t: self.t,
                target: target_token(bytes, self.t),
                log: self.global_step % log_every == 0,
            }
        } else {
            Action::EndBatch
        }
    }

    /// Note that an action is done.
    pub fn advance(&mut self, action: Action)
        requires
            action is Step ==> old(self).t < usize::MAX && old(self).global_step < usize::MAX,
            action is EndBatch ==> old(self).batch < usize::MAX,
        ensures
            *final(self) == after(*old(self), action),
            match action {
                Action::Step { .. } => {
                    &&& final(self).batch == old(self).batch
                    &&& final(self).t == old(self).t + 1
                    &&& final(self).global_step == old(self).global_step + 1
                },
                Action::EndBatch => {
                    &&& final(self).batch == old(self).batch + 1
                    &&& final(self).t == 0
                    &&& final(self).global_step == old(self).global_step
                },
                Action::Done => *final(self) == *old(self),
            },
    {
        match action {
            Action::Step { .. } => {
                self.t += 1;
                self.global_step += 1;
            },
            Action::EndBatch => {
                self.batch += 1;
                self.t = 0;
            },
            Action::Done => {},
        }
    }
}

/// The run has taken the steps of all batches before the current one, and of
/// the current one those before the current position.
pub open spec fn on_course(progress: Progress, batches: Seq<Batch>) -> bool {
    &&& progress.batch <= batches.len()
    &&& progress.batch < batches.len() ==> {
        let batch = batches[progress.batch as int];
        &&& progress.t == 0 || progress.t < batch.bytes@.len()
        &&& progress.global_step == steps_before(batches, progress.batch as nat) + steps_in(
            batch,
            0,
        ) - steps_in(batch, progress.t as int)
    }
    &&& progress.batch == batches.len() ==> progress.t == 0 && progress.global_step
        == steps_before(batches, batches.len())
}

/// A run keeps to its course, and its end is reached exactly when every batch
/// has been run through: one step for each byte that has a next one in its
/// batch.
pub proof fn run_keeps_course(progress: Progress, batches: Seq<Batch>, log_every: int)
    requires
        on_course(progress, batches),
        batches.len() <= usize::MAX,
        steps_before(batches, batches.len()) < usize::MAX,
    ensures
        on_course(
            after(progress, next_action(progress, batches, log_every)),
            batches,
        ),
        next_action(progress, batches, log_every) is Done ==> progress.global_step
            == steps_before(batches, batches.len()),
        on_course(Progress { batch: 0, t: 0, global_step: 0 }, batches),
{
    if progress.batch < batches.len() {
        steps_before_grows(batches, (progress.batch + 1) as nat, batches.len());
        let batch = batches[progress.batch as int];
        assert(batch.bytes.len() <= usize::MAX);
    }
}

proof fn steps_before_grows(batches: Seq<Batch>, a: nat, b: nat)
    requires
        a <= b,
    ensures
        steps_before(batches, a) <= steps_before(batches, b),
    decreases b,
{
    if a < b {
        steps_before_grows(batches, a, (b - 1) as nat);
    }
}

/// The ending of model files.
pub open spec fn suffix() -> Seq<char> {
    ".sovereign"@
}

/// A path without the ending, however often it is repeated.
pub open spec fn trimmed(path: Seq<char>) -> Seq<char>
    decreases path.len(),
{
    if suffix().len() > 0 && path.len() >= suffix().len() && path.skip(
        path.len() - suffix().len(),
    ) == suffix() {
        trimmed(path.take(path.len() - suffix().len()))
    } else {
        path
    }
}

/// Whether the first `n` characters of `path` end in `.sovereign`.
fn ends_in_suffix(path: &str, n: usize) -> (yes: bool)
    requires
        n <= path@.len(),
    ensures
        yes == (n >= suffix().len() && path@.take(n as int).skip(n - suffix().len()) == suffix()),
{
    proof {
        reveal_strlit(".sovereign");
    }
    let expected = ".sovereign";
    if n < 10 {
        return false;
    }
    let mut i: usize = 0;
    let ghost tail = path@.take(n as int).skip(n - 10);
    while i < 10
        invariant
            i <= 10 <= n <= path@.len(),
            expected@ == suffix(),
            suffix().len() == 10,
            tail == path@.take(n as int).skip(n - 10),
            forall|j: int| 0 <= j < i ==> #[trigger] tail[j] == suffix()[j],
        decreases 10 - i,
    {
        if path.get_char(n - 10 + i) != expected.get_char(i) {
            assert(tail[i as int] != suffix()[i as int]);
            return false;
        }
        i += 1;
    }
    assert(tail =~= suffix());
    true
}

/// The name of the checkpoint of a step.
pub open spec fn checkpoint_name(path: Seq<char>, step: nat) -> Seq<char> {
    trimmed(path) + "_step"@ + decimal(step) + ".sovereign"@
}

/// The name of the checkpoint of a step.
pub fn checkpoint_path(sovereign_path: &str, step: usize) -> (name: String)
    ensures
        name@ == checkpoint_name(sovereign_path@, step as nat),
        name@ == trimmed(sovereign_path@) + "_step"@ + decimal(step as nat) + ".sovereign"@,
{
    let mut n: usize = sovereign_path.unicode_len();
    assert(sovereign_path@.take(n as int) =~= sovereign_path@);
    proof {
        reveal_strlit(".sovereign");
    }
    while ends_in_suffix(sovereign_path, n)
        invariant
            n <= sovereign_path@.len(),
            suffix().len() == 10,
            trimmed(sovereign_path@.take(n as int)) == trimmed(sovereign_path@),
        decreases n,
    {
        assert(sovereign_path@.take(n as int).take(n - 10) =~= sovereign_path@.take(n - 10));
        n -= 10;
    }
    let mut name = sovereign_path.substring_char(0, n).to_owned();
    assert(name@ =~= sovereign_path@.take(n as int));
    name.append("_step");
    name.append(to_decimal(step).as_str());
    name.append(".sovereign");
    name
}

/// Whether a checkpoint is due after `step` steps, one being written every
/// `every` steps.
pub fn should_checkpoint(step: usize, every: usize) -> (due: bool)
    requires
        every > 0,
    ensures
        due == (step > 0 && step as int % every as int == 0),
{
    step > 0 && step % every == 0
}

/// A run takes a step for every byte that has a next one in its batch, in
/// order: from a position the next action is the step there, and behind it the
/// one at the next position, until the batch ends.
pub proof fn run_goes_byte_by_byte(progress: Progress, batches: Seq<Batch>, log_every: int)
    requires
        log_every > 0,
        progress.t < usize::MAX,
        progress.global_step < usize::MAX,
        progress.batch < usize::MAX,
    ensures
        ({
            let action = next_action(progress, batches, log_every);
            let then = after(progress, action);
            let here = batches[progress.batch as int].bytes@;
            &&& action is Done <==> progress.batch >= batches.len()
            &&& action is Step <==> progress.batch < batches.len() && progress.t + 1 < here.len()
            &&& action matches Action::Step { batch, t, target, log } ==> {
                &&& batch == progress.batch && t == progress.t
                &&& target == here[progress.t + 1]
                &&& log <==> progress.global_step as int % log_every == 0
                &&& then.batch == progress.batch
                &&& then.t == progress.t + 1
                &&& then.global_step == progress.global_step + 1
            }
            &&& action is EndBatch ==> {
                &&& then.batch == progress.batch + 1
                &&& then.t == 0
                &&& then.global_step == progress.global_step
            }
            &&& action is Done ==> then == progress
        }),
{
}

/// A batch has as many steps as bytes that have a next one, and batches have as
/// many steps together.
pub proof fn steps_are_next_bytes(batches: Seq<Batch>, n: nat)
    requires
        n < batches.len(),
    ensures
        steps_before(batches, 0) == 0,
        steps_before(batches, n + 1) == steps_before(batches, n) + (if batches[n as int].bytes@.len()
            > 0 {
            batches[n as int].bytes@.len() - 1
        } else {
            0
        }),
        0 <= n < batches.len() && batches[n as int].bytes@.len() > 0 ==> steps_in(
            batches[n as int],
            batches[n as int].bytes@.len() - 1,
        ) == 0,
{
}

/// The ending is taken off as often as it stands there, and nothing else is.
pub proof fn endings_are_trimmed(path: Seq<char>)
    ensures
        trimmed(path + ".sovereign"@) == trimmed(path),
        !".sovereign"@.is_suffix_of(path) ==> trimmed(path) == path,
        !".sovereign"@.is_suffix_of(trimmed(path)),
    decreases path.len(),
{
    reveal_strlit(".sovereign");
    let longer = path + ".sovereign"@;
    assert(longer.skip(longer.len() - 10) =~= ".sovereign"@);
    assert(longer.take(longer.len() - 10) =~= path);
    if path.len() >= 10 {
        assert(path.skip(path.len() - 10) =~= path.subrange(path.len() - 10, path.len() as int));
        if path.skip(path.len() - 10) == ".sovereign"@ {
            endings_are_trimmed(path.take(path.len() - 10));
        }
    }
}

/// The checkpoint of a step stands beside the model: its name is the path
/// without its ending, the step in decimal, and the ending.
pub proof fn checkpoints_stand_beside_model(stem: Seq<char>, step: nat, other: nat)
    requires
        !".sovereign"@.is_suffix_of(stem),
    ensures
        checkpoint_name(stem + ".sovereign"@, step) == stem + "_step"@ + decimal(step)
            + ".sovereign"@,
        checkpoint_name(stem, step) == stem + "_step"@ + decimal(step) + ".sovereign"@,
        checkpoint_name(stem, step) == checkpoint_name(stem, other) ==> step == other,
{
    endings_are_trimmed(stem);
    let a = checkpoint_name(stem, step);
    let b = checkpoint_name(stem, other);
    if a == b {
        let front = stem + "_step"@;
        let n = front.len() as int;
        let ending = ".sovereign"@.len() as int;
        assert(a.subrange(n, a.len() - ending) =~= decimal(step));
        assert(b.subrange(n, b.len() - ending) =~= decimal(other));
        crate::decimal::decimal_injective(step, other);
    }
}

} // verus!
