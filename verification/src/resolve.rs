//! Resolution of requested keys against the descriptor mapping.
//!
//! Keys are taken one at a time, in the order they were requested. A literal
//! descriptor resolves on the spot; a command descriptor asks the caller to
//! run the program and hand back what it wrote, since spawning a process is
//! outside this library. The caller drives the loop: call [`Resolver::step`]
//! until it finishes or fails, running one command per
//! [`Step::RunCommand`] and handing its streams to [`Resolver::feed`].

use vstd::prelude::*;
use vstd::string::StringExecFns;
use vstd::utf8::{decode_utf8, valid_utf8};
use crate::descriptor::{DescModel, Descriptor, DescriptorMap};
use crate::errors::{ConfigError, ErrorModel};
use crate::kv::{kv_model, lookup_model, unique_keys, upsert_model};
use crate::kv::{lemma_lookup_member, lemma_upsert_unique, upsert};
use crate::text::{clone_strings, lossy_decoded, split_on, split_string, utf8_to_string,
    utf8_to_string_lossy};

verus! {

/// Spec-level mirror of [`Resolver`].
pub struct ResolverModel {
    /// The descriptor mapping's entries, in order.
    pub map: Seq<(Seq<char>, DescModel)>,
    /// The requested keys, in request order.
    pub keys: Seq<Seq<char>>,
    /// How many requested keys are settled.
    pub idx: int,
    /// Whether a command's outcome is awaited for the current key.
    pub pending: bool,
    /// The values resolved so far, in request order.
    pub resolved: Seq<(Seq<char>, Seq<char>)>,
}

/// Spec-level mirror of [`Step`].
pub enum StepModel {
    Resolved,
    RunCommand { program: Seq<char>, args: Seq<Seq<char>> },
    Failed { error: ErrorModel },
    Finished,
}

/// What one step of resolution asks of the caller.
pub enum Step {
    /// The current key resolved to a literal; nothing to do.
    Resolved,
    /// Run `program` with `args` and hand both captured streams to
    /// [`Resolver::feed`].
    RunCommand { program: String, args: Vec<String> },
    /// Resolution failed; the run aborts with this error.
    Failed { error: ConfigError },
    /// Every requested key is resolved.
    Finished,
}

impl View for Step {
    type V = StepModel;

    open spec fn view(&self) -> StepModel {
        match self {
            Step::Resolved => StepModel::Resolved,
            Step::RunCommand { program, args } => StepModel::RunCommand {
                program: program@,
                args: args.deep_view(),
            },
            Step::Failed { error } => StepModel::Failed { error: error@ },
            Step::Finished => StepModel::Finished,
        }
    }
}

/// A command's outcome, decided from its captured streams: any bytes on the
/// error stream fail the resolution, whatever the exit status was; otherwise
/// the standard output decoded as UTF-8, untrimmed, is the value.
pub open spec fn outcome_model(stdout: Seq<u8>, stderr: Seq<u8>) -> Result<Seq<char>, ErrorModel> {
    if stderr.len() > 0 {
        Err(ErrorModel::Command { stderr: lossy_decoded(stderr) })
    } else if valid_utf8(stdout) {
        Ok(decode_utf8(stdout))
    } else {
        Err(ErrorModel::Encoding)
    }
}

/// The state a fresh resolver starts from.
pub open spec fn init_model(map: Seq<(Seq<char>, DescModel)>, key_list: Seq<char>) -> ResolverModel {
    ResolverModel {
        map,
        keys: split_on(key_list, ','),
        idx: 0,
        pending: false,
        resolved: Seq::empty(),
    }
}

/// What one step does: done past the last key; the next key missing from the
/// mapping fails the run; a literal key resolves and advances; a command key
/// asks for the command to be run.
pub open spec fn step_model(st: ResolverModel) -> (ResolverModel, StepModel) {
    if st.idx >= st.keys.len() {
        (st, StepModel::Finished)
    } else {
        let key = st.keys[st.idx];
        match lookup_model(st.map, key) {
            None => (
                st,
                StepModel::Failed { error: ErrorModel::KeyNotFound { key } },
            ),
            Some(DescModel::Literal { value }) => (
                ResolverModel {
                    idx: st.idx + 1,
                    resolved: upsert_model(st.resolved, key, value),
                    ..st
                },
                StepModel::Resolved,
            ),
            Some(DescModel::Command { program, args }) => (
                ResolverModel { pending: true, ..st },
                StepModel::RunCommand { program, args },
            ),
        }
    }
}

/// What feeding a command's streams does: a failed outcome aborts; a
/// successful one binds the current key to the decoded output and advances.
pub open spec fn feed_model(st: ResolverModel, stdout: Seq<u8>, stderr: Seq<u8>) -> (
    ResolverModel,
    Option<ErrorModel>,
) {
    match outcome_model(stdout, stderr) {
        Ok(value) => (
            ResolverModel {
                idx: st.idx + 1,
                pending: false,
                resolved: upsert_model(st.resolved, st.keys[st.idx], value),
                ..st
            },
            None,
        ),
        Err(e) => (st, Some(e)),
    }
}

/// The resolver's well-formedness: the position is within the requested
/// keys, a pending command belongs to the current key and to a command
/// descriptor, and no two resolved entries share a key.
pub open spec fn resolver_wf(st: ResolverModel) -> bool {
    &&& 0 <= st.idx <= st.keys.len()
    &&& st.pending ==> st.idx < st.keys.len() && (lookup_model(st.map, st.keys[st.idx]) matches
        Some(d) && d is Command)
    &&& unique_keys(st.resolved)
}

/// Walks the resolver step by step over the requested keys. Commands take
/// their outcomes from `outs` in order; when `outs` runs short, the empty
/// outcome (no output, no error bytes) stands in.
pub open spec fn run_model(st: ResolverModel, outs: Seq<(Seq<u8>, Seq<u8>)>) -> Result<
    Seq<(Seq<char>, Seq<char>)>,
    ErrorModel,
>
    decreases st.keys.len() - st.idx,
    when 0 <= st.idx <= st.keys.len() && !st.pending
{
    let stepped = step_model(st);
    match stepped.1 {
        StepModel::Finished => Ok(st.resolved),
        StepModel::Failed { error } => Err(error),
        StepModel::Resolved => run_model(stepped.0, outs),
        StepModel::RunCommand { program, args } => {
            let out = if outs.len() > 0 {
                outs[0]
            } else {
                (Seq::<u8>::empty(), Seq::<u8>::empty())
            };
            let rest = if outs.len() > 0 {
                outs.drop_first()
            } else {
                outs
            };
            let fed = feed_model(stepped.0, out.0, out.1);
            match fed.1 {
                None => run_model(fed.0, rest),
                Some(e) => Err(e),
            }
        },
    }
}

/// A step preserves well-formedness, and only moves forward.
pub proof fn lemma_step_model_wf(st: ResolverModel)
    requires
        resolver_wf(st),
        !st.pending,
    ensures
        resolver_wf(step_model(st).0),
        step_model(st).1 is Resolved ==> !step_model(st).0.pending && step_model(st).0.idx == st.idx
            + 1,
        step_model(st).1 is RunCommand ==> step_model(st).0.pending && step_model(st).0.idx
            == st.idx,
        step_model(st).0.map == st.map && step_model(st).0.keys == st.keys,
{
    if st.idx < st.keys.len() {
        let key = st.keys[st.idx];
        match lookup_model(st.map, key) {
            Some(DescModel::Literal { value }) => {
                lemma_upsert_unique(st.resolved, key, value);
            },
            _ => {},
        }
    }
}

/// Feeding a successful outcome preserves well-formedness and advances.
pub proof fn lemma_feed_model_wf(st: ResolverModel, stdout: Seq<u8>, stderr: Seq<u8>)
    requires
        resolver_wf(st),
        st.pending,
    ensures
        feed_model(st, stdout, stderr).1 is None ==> resolver_wf(feed_model(st, stdout, stderr).0)
            && !feed_model(st, stdout, stderr).0.pending && feed_model(st, stdout, stderr).0.idx
            == st.idx + 1,
        feed_model(st, stdout, stderr).1 is Some ==> feed_model(st, stdout, stderr).0 == st,
        feed_model(st, stdout, stderr).0.map == st.map && feed_model(st, stdout, stderr).0.keys
            == st.keys,
{
    match outcome_model(stdout, stderr) {
        Ok(value) => {
            lemma_upsert_unique(st.resolved, st.keys[st.idx], value);
        },
        Err(_) => {},
    }
}

/// Resolves requested keys one at a time against a descriptor mapping.
pub struct Resolver {
    map: DescriptorMap,
    keys: Vec<String>,
    idx: usize,
    pending: bool,
    resolved: Vec<(String, String)>,
}

impl View for Resolver {
    type V = ResolverModel;

    closed spec fn view(&self) -> ResolverModel {
        ResolverModel {
            map: self.map.model(),
            keys: self.keys.deep_view(),
            idx: self.idx as int,
            pending: self.pending,
            resolved: kv_model(self.resolved@),
        }
    }
}

impl Resolver {
    /// Starts a resolution of the comma-separated `key_list` against `map`.
    /// The list is split on every comma, with no trimming: an empty list
    /// names the single empty key.
    pub fn new(map: DescriptorMap, key_list: &str) -> (r: Resolver)
        requires
            map.wf(),
        ensures
            r@ == init_model(map.model(), key_list@),
            resolver_wf(r@),
    {
        let keys = split_string(key_list, ',');
        let r = Resolver { map, keys, idx: 0, pending: false, resolved: Vec::new() };
        proof {
            assert(kv_model(r.resolved@) =~= Seq::<(Seq<char>, Seq<char>)>::empty());
        }
        r
    }

    /// Whether a command's outcome is awaited before the next step.
    pub fn is_pending(&self) -> (r: bool)
        ensures
            r == self@.pending,
    {
        self.pending
    }

    /// Takes the next requested key: resolves it from a literal descriptor,
    /// asks for its command to be run, fails on a key the mapping does not
    /// hold, or reports that all keys are done.
    pub fn step(&mut self) -> (r: Step)
        requires
            resolver_wf(old(self)@),
            !old(self)@.pending,
        ensures
            resolver_wf(final(self)@),
            (final(self)@, r@) == step_model(old(self)@),
    {
        proof {
            lemma_step_model_wf(old(self)@);
        }
        if self.idx >= self.keys.len() {
            return Step::Finished;
        }
        let key = self.keys[self.idx].clone();
        proof {
            assert(key@ == old(self)@.keys[old(self)@.idx]);
        }
        let found = self.map.get(&key);
        match found {
            None => Step::Failed { error: ConfigError::KeyNotFound { key } },
            Some(d) => match d {
                Descriptor::Literal { value } => {
                    let v = value.clone();
                    self.idx = self.idx + 1;
                    upsert(&mut self.resolved, key, v);
                    Step::Resolved
                },
                Descriptor::Command { program, args } => {
                    let p = program.clone();
                    let a = clone_strings(args);
                    self.pending = true;
                    Step::RunCommand { program: p, args: a }
                },
            },
        }
    }

    /// Hands back the streams a requested command wrote. A successful
    /// outcome binds the current key to the decoded output; a failed one is
    /// returned and aborts the run.
    pub fn feed(&mut self, stdout: Vec<u8>, stderr: Vec<u8>) -> (r: Option<ConfigError>)
        requires
            resolver_wf(old(self)@),
            old(self)@.pending,
        ensures
            resolver_wf(final(self)@),
            match r {
                None => (final(self)@, None::<ErrorModel>) == feed_model(
                    old(self)@,
                    stdout@,
                    stderr@,
                ),
                Some(e) => (final(self)@, Some(e@)) == feed_model(old(self)@, stdout@, stderr@),
            },
    {
        proof {
            lemma_feed_model_wf(old(self)@, stdout@, stderr@);
        }
        match command_outcome(stdout, stderr) {
            Ok(value) => {
                let n = self.keys.len();
                proof {
                    assert(old(self)@.keys.len() == self.keys@.len());
                    assert(self.idx < n);
                }
                let key = self.keys[self.idx].clone();
                proof {
                    assert(key@ == old(self)@.keys[old(self)@.idx]);
                }
                self.idx = self.idx + 1;
                self.pending = false;
                upsert(&mut self.resolved, key, value);
                None
            },
            Err(e) => Some(e),
        }
    }

    /// The resolved keys and values, in request order.
    pub fn into_resolved(self) -> (r: Vec<(String, String)>)
        ensures
            kv_model(r@) == self@.resolved,
    {
        self.resolved
    }
}

/// Decides a command's outcome from its captured streams, as
/// [`outcome_model`] says: bytes on the error stream are fatal even beside
/// valid output and a zero exit status, and the output is kept as it came,
/// trailing newline included.
pub fn command_outcome(stdout: Vec<u8>, stderr: Vec<u8>) -> (r: Result<String, ConfigError>)
    ensures
        match r {
            Ok(v) => outcome_model(stdout@, stderr@) == Ok::<_, ErrorModel>(v@),
            Err(e) => outcome_model(stdout@, stderr@) == Err::<Seq<char>, _>(e@),
        },
{
    if stderr.len() > 0 {
        Err(ConfigError::Command { stderr: utf8_to_string_lossy(&stderr) })
    } else {
        match utf8_to_string(stdout) {
            Some(v) => Ok(v),
            None => Err(ConfigError::Encoding),
        }
    }
}

/// Whether every descriptor of the mapping is a literal.
pub open spec fn all_literal(map: Seq<(Seq<char>, DescModel)>) -> bool {
    forall|i: int| 0 <= i < map.len() ==> (#[trigger] map[i]).1 is Literal
}

/// A mapping holding only literal descriptors never asks for a command to be
/// run, and each resolving step advances to the next key, so resolution
/// terminates after at most one step per requested key.
pub proof fn lemma_all_literal_never_runs(st: ResolverModel)
    requires
        resolver_wf(st),
        !st.pending,
        all_literal(st.map),
    ensures
        !(step_model(st).1 is RunCommand),
        step_model(st).1 is Resolved ==> step_model(st).0.idx == st.idx + 1,
{
    lemma_step_model_wf(st);
    if st.idx < st.keys.len() {
        let key = st.keys[st.idx];
        match lookup_model(st.map, key) {
            Some(d) => {
                lemma_lookup_member(st.map, key, d);
                let m = choose|m: int| 0 <= m < st.map.len() && st.map[m] == (key, d);
                assert(st.map[m].1 is Literal);
            },
            None => {},
        }
    }
}

/// With only literal descriptors, the whole run never consults a command
/// outcome: it resolves the same way whatever outcomes are supplied.
pub proof fn lemma_all_literal_run(st: ResolverModel, outs: Seq<(Seq<u8>, Seq<u8>)>)
    requires
        resolver_wf(st),
        !st.pending,
        all_literal(st.map),
    ensures
        run_model(st, outs) == run_model(st, Seq::empty()),
    decreases st.keys.len() - st.idx,
{
    lemma_all_literal_never_runs(st);
    lemma_step_model_wf(st);
    let stepped = step_model(st);
    match stepped.1 {
        StepModel::Resolved => {
            lemma_all_literal_run(stepped.0, outs);
        },
        _ => {},
    }
}

/// When a requested key is absent from the mapping and every supplied
/// command outcome succeeds, the run fails with `KeyNotFound` naming the
/// first absent key, and resolves nothing.
pub proof fn lemma_missing_key_fails(st: ResolverModel, outs: Seq<(Seq<u8>, Seq<u8>)>, i: int)
    requires
        resolver_wf(st),
        !st.pending,
        st.idx <= i < st.keys.len(),
        lookup_model(st.map, st.keys[i]) is None,
        forall|j: int| st.idx <= j < i ==> lookup_model(st.map, #[trigger] st.keys[j]) is Some,
        forall|j: int|
            0 <= j < outs.len() ==> (#[trigger] outs[j]).1.len() == 0 && valid_utf8(outs[j].0),
    ensures
        run_model(st, outs) == Err::<Seq<(Seq<char>, Seq<char>)>, ErrorModel>(
            ErrorModel::KeyNotFound { key: st.keys[i] },
        ),
    decreases i - st.idx,
{
    lemma_step_model_wf(st);
    let stepped = step_model(st);
    if st.idx == i {
        assert(stepped.1 == StepModel::Failed {
            error: ErrorModel::KeyNotFound { key: st.keys[i] },
        });
    } else {
        match stepped.1 {
            StepModel::Resolved => {
                lemma_missing_key_fails(stepped.0, outs, i);
            },
            StepModel::RunCommand { program, args } => {
                let out = if outs.len() > 0 {
                    outs[0]
                } else {
                    (Seq::<u8>::empty(), Seq::<u8>::empty())
                };
                let rest = if outs.len() > 0 {
                    outs.drop_first()
                } else {
                    outs
                };
                assert(out.1.len() == 0 && valid_utf8(out.0));
                lemma_feed_model_wf(stepped.0, out.0, out.1);
                let fed = feed_model(stepped.0, out.0, out.1);
                assert(fed.1 is None);
                assert forall|j: int|
                    0 <= j < rest.len() implies (#[trigger] rest[j]).1.len() == 0 && valid_utf8(
                    rest[j].0,
                ) by {
                    if outs.len() > 0 {
                        assert(rest[j] == outs[j + 1]);
                    }
                }
                lemma_missing_key_fails(fed.0, rest, i);
            },
            _ => {},
        }
    }
}

} // verus!
