//! The pipeline controller.
//!
//! The façade over the task registry, render orchestrator and result store:
//! it filters a batch by declared media type, derives each document's
//! identifier, registers an in-flight task per accepted document (dropping
//! duplicates), renders, and on completion releases the task slot and — on
//! success only — appends the result to the store. Failures never cross
//! document boundaries.

use crate::backend::{pdf_page_count_of, pdf_parses};
use crate::ids::{derive_identifier, spec_stem, str_eq};
use crate::registry::{occurrences, TaskRegistry};
use crate::render::{doc_ok, render_document, RenderConfig, RenderError, RenderedImage};
use crate::store::ResultStore;
use vstd::prelude::*;

verus! {

/// One uploaded document: display name, declared media type, declared byte
/// length, and content.
pub struct UploadItem {
    /// The display name of the file, identifier source.
    pub filename: String,
    /// The declared media type; only `"application/pdf"` is accepted.
    pub media_type: String,
    /// The declared size in bytes, shown human-readably in the result.
    pub declared_size: u64,
    /// The raw document bytes.
    pub bytes: Vec<u8>,
}

/// The accepted media type.
pub open spec fn pdf_media_type() -> Seq<char> {
    "application/pdf"@
}

/// What the controller decides for one submitted item.
#[derive(Clone, Copy, PartialEq, Eq, Structural, Debug)]
pub enum SubmitDecision {
    /// Wrong declared media type, or the derived identifier is empty; the
    /// item is dropped and reported.
    Rejected,
    /// The identifier already has an in-flight render; the item is dropped.
    Duplicate,
    /// A task was registered and a render may start.
    Accepted,
}

/// How one item of a batch ended.
#[derive(Clone, Copy, PartialEq, Eq, Structural, Debug)]
pub enum SubmitOutcome {
    /// Wrong declared media type, or the derived identifier is empty;
    /// dropped, nothing rendered.
    Rejected,
    /// Identifier already in flight when submitted; dropped silently.
    Duplicate,
    /// Rendered and appended to the result store.
    Completed,
    /// Accepted but the render failed; the task slot was released and
    /// nothing was appended.
    Failed(RenderError),
}

/// The controller's decision for `item` against the in-flight set `ids`.
/// A document identifier is always non-empty: an item whose display name
/// strips down to nothing is rejected like one of the wrong media type.
pub open spec fn spec_decision(ids: Seq<Seq<char>>, item: UploadItem) -> SubmitDecision {
    if item.media_type@ != pdf_media_type() || spec_stem(item.filename@).len() == 0 {
        SubmitDecision::Rejected
    } else if ids.contains(spec_stem(item.filename@)) {
        SubmitDecision::Duplicate
    } else {
        SubmitDecision::Accepted
    }
}

/// The identifiers accepted from `items`, in order, when submission starts
/// with the in-flight set `ids0`: each item is decided against `ids0` plus
/// the identifiers accepted before it.
pub open spec fn accepted_stems(ids0: Seq<Seq<char>>, items: Seq<UploadItem>) -> Seq<Seq<char>>
    decreases items.len(),
{
    if items.len() == 0 {
        Seq::empty()
    } else {
        let prev = accepted_stems(ids0, items.drop_last());
        if spec_decision(ids0 + prev, items.last()) == SubmitDecision::Accepted {
            prev.push(spec_stem(items.last().filename@))
        } else {
            prev
        }
    }
}

/// The controller's decision for the `i`-th item of a batch submitted
/// against the initial in-flight set `ids0`.
pub open spec fn decision_at(ids0: Seq<Seq<char>>, items: Seq<UploadItem>, i: int) -> SubmitDecision {
    spec_decision(ids0 + accepted_stems(ids0, items.take(i)), items[i])
}

/// How many of the first `i` outcomes completed.
pub open spec fn completed_before(outs: Seq<SubmitOutcome>, i: int) -> nat
    decreases i,
{
    if i <= 0 {
        0
    } else {
        completed_before(outs, i - 1) + (if outs[i - 1] is Completed {
            1nat
        } else {
            0nat
        })
    }
}

/// Counting completions is unchanged by appending an outcome after them.
pub proof fn lemma_completed_before_push(outs: Seq<SubmitOutcome>, o: SubmitOutcome, i: int)
    requires
        0 <= i <= outs.len(),
    ensures
        completed_before(outs.push(o), i) == completed_before(outs, i),
    decreases i,
{
    if i > 0 {
        lemma_completed_before_push(outs, o, i - 1);
    }
}

/// Counting completions grows with the prefix, strictly across a completed
/// position.
pub proof fn lemma_completed_before_mono(outs: Seq<SubmitOutcome>, j: int, i: int)
    requires
        0 <= j <= i <= outs.len(),
    ensures
        completed_before(outs, j) <= completed_before(outs, i),
        j < i && outs[j] is Completed ==> completed_before(outs, j) + 1 <= completed_before(
            outs,
            i,
        ),
    decreases i - j,
{
    if j < i {
        lemma_completed_before_mono(outs, j + 1, i);
    }
}

/// Stepping the accepted identifiers by one item.
pub proof fn lemma_accepted_stems_step(ids0: Seq<Seq<char>>, items: Seq<UploadItem>, i: int)
    requires
        0 <= i < items.len(),
    ensures
        accepted_stems(ids0, items.take(i + 1)) == if decision_at(ids0, items, i)
            == SubmitDecision::Accepted {
            accepted_stems(ids0, items.take(i)).push(spec_stem(items[i].filename@))
        } else {
            accepted_stems(ids0, items.take(i))
        },
{
    assert(items.take(i + 1).drop_last() =~= items.take(i));
    assert(items.take(i + 1).last() == items[i]);
}

/// The identifiers accepted from a prefix are a prefix of those accepted
/// from the whole batch.
pub proof fn lemma_accepted_stems_prefix(ids0: Seq<Seq<char>>, items: Seq<UploadItem>, i: int)
    requires
        0 <= i <= items.len(),
    ensures
        accepted_stems(ids0, items.take(i)).len() <= accepted_stems(ids0, items).len(),
        accepted_stems(ids0, items).take(accepted_stems(ids0, items.take(i)).len() as int)
            == accepted_stems(ids0, items.take(i)),
    decreases items.len(),
{
    if i == items.len() {
        assert(items.take(i) =~= items);
        assert(accepted_stems(ids0, items).take(accepted_stems(ids0, items).len() as int)
            =~= accepted_stems(ids0, items));
    } else {
        lemma_accepted_stems_prefix(ids0, items.drop_last(), i);
        assert(items.drop_last().take(i) =~= items.take(i));
        let prev = accepted_stems(ids0, items.drop_last());
        let m = accepted_stems(ids0, items.take(i)).len() as int;
        if spec_decision(ids0 + prev, items.last()) == SubmitDecision::Accepted {
            assert(prev.push(spec_stem(items.last().filename@)).take(m) =~= prev.take(m));
        }
    }
}

/// A well-formed pipeline never holds more than one in-flight task per
/// identifier: a submission while the identifier is pending is dropped.
pub proof fn lemma_pending_at_most_once(p: Pipeline, x: Seq<char>)
    requires
        p.wf(),
    ensures
        occurrences(p.pending_ids(), x) <= 1,
{
    crate::registry::lemma_pending_count_at_most_one(p.registry, x);
}

/// Every in-flight identifier is non-empty: an item whose derived
/// identifier would be empty is never registered.
pub proof fn lemma_pending_ids_nonempty(p: Pipeline, k: int)
    requires
        p.wf(),
        0 <= k < p.pending_ids().len(),
    ensures
        p.pending_ids()[k].len() > 0,
{
}

/// The pipeline: registry, store and configuration behind one façade.
pub struct Pipeline {
    registry: TaskRegistry,
    store: ResultStore,
    config: RenderConfig,
}

impl Pipeline {
    /// The identifiers with an in-flight render, in registration order.
    pub closed spec fn pending_ids(self) -> Seq<Seq<char>> {
        self.registry.ids()
    }

    /// Whether `x` has an in-flight render.
    pub open spec fn is_pending(self, x: Seq<char>) -> bool {
        self.pending_ids().contains(x)
    }

    /// The completed renders, in completion order.
    pub closed spec fn docs(self) -> Seq<RenderedImage> {
        self.store.docs()
    }

    /// The render configuration the pipeline was built with.
    pub closed spec fn config_spec(self) -> RenderConfig {
        self.config
    }

    /// Well-formed: the registry holds each identifier at most once, and
    /// every in-flight identifier is non-empty.
    pub closed spec fn wf(self) -> bool {
        &&& self.registry.wf()
        &&& forall|k: int|
            0 <= k < self.registry.ids().len() ==> (#[trigger] self.registry.ids()[k]).len() > 0
    }

    /// Creates a pipeline with no in-flight task and no result.
    pub fn new(config: RenderConfig) -> (r: Pipeline)
        ensures
            r.wf(),
            r.pending_ids() =~= Seq::<Seq<char>>::empty(),
            r.docs() =~= Seq::<RenderedImage>::empty(),
            r.config_spec() == config,
    {
        Pipeline { registry: TaskRegistry::new(), store: ResultStore::new(), config }
    }

    /// The completed renders so far, for listing and export.
    pub fn results(&self) -> (r: &Vec<RenderedImage>)
        ensures
            r@ == self.docs(),
    {
        self.store.list()
    }

    /// How many identifiers currently have an in-flight render.
    pub fn pending_len(&self) -> (r: usize)
        ensures
            r == self.pending_ids().len(),
    {
        self.registry.len()
    }

    /// Submits one item: rejects a wrong media type or an empty derived
    /// identifier, and registers a task unless the identifier is already in
    /// flight.
    pub fn submit(&mut self, item: &UploadItem) -> (d: SubmitDecision)
        requires
            old(self).wf(),
        ensures
            final(self).wf(),
            d == spec_decision(old(self).pending_ids(), *item),
            d == SubmitDecision::Accepted ==> final(self).pending_ids() =~= old(
                self,
            ).pending_ids().push(spec_stem(item.filename@)),
            d != SubmitDecision::Accepted ==> final(self).pending_ids() == old(self).pending_ids(),
            final(self).docs() == old(self).docs(),
            final(self).config_spec() == old(self).config_spec(),
    {
        if !str_eq(item.media_type.as_str(), "application/pdf") {
            return SubmitDecision::Rejected;
        }
        let id = derive_identifier(item.filename.as_str());
        if id.as_str().is_empty() {
            return SubmitDecision::Rejected;
        }
        let registered = self.registry.register(&id);
        proof {
            if registered {
                assert forall|k: int|
                    0 <= k < self.registry.ids().len() implies (
                #[trigger] self.registry.ids()[k]).len() > 0 by {
                    if k < old(self).registry.ids().len() {
                        assert(old(self).registry.ids()[k].len() > 0);
                    } else {
                        assert(self.registry.ids()[k] == id@);
                    }
                }
            }
        }
        if registered {
            SubmitDecision::Accepted
        } else {
            SubmitDecision::Duplicate
        }
    }

    /// Takes one render's completion: releases the task slot (idempotently)
    /// and appends the result to the store on success only.
    pub fn on_complete(&mut self, id: &String, result: Result<RenderedImage, RenderError>)
        requires
            old(self).wf(),
        ensures
            final(self).wf(),
            final(self).config_spec() == old(self).config_spec(),
            forall|x: Seq<char>|
                final(self).is_pending(x) == (old(self).is_pending(x) && x != id@),
            old(self).is_pending(id@) ==> exists|k: int|
                0 <= k < old(self).pending_ids().len() && old(self).pending_ids()[k] == id@
                    && final(self).pending_ids() =~= old(self).pending_ids().remove(k),
            !old(self).is_pending(id@) ==> final(self).pending_ids() == old(self).pending_ids(),
            result is Ok ==> final(self).docs() =~= old(self).docs().push(result.unwrap()),
            result is Err ==> final(self).docs() == old(self).docs(),
    {
        self.registry.complete(id);
        proof {
            assert forall|x: Seq<char>|
                self.is_pending(x) == (old(self).is_pending(x) && x != id@) by {
                assert(self.registry.is_pending(x) == (old(self).registry.is_pending(x) && x
                    != id@));
            }
            assert forall|k: int|
                0 <= k < self.registry.ids().len() implies (
            #[trigger] self.registry.ids()[k]).len() > 0 by {
                let x = self.registry.ids()[k];
                assert(self.registry.ids().contains(x));
                assert(self.registry.is_pending(x));
                assert(old(self).registry.is_pending(x));
                let j = choose|j: int|
                    0 <= j < old(self).registry.ids().len() && old(self).registry.ids()[j] == x;
                assert(old(self).registry.ids()[j].len() > 0);
            }
        }
        match result {
            Ok(doc) => self.store.append(doc),
            Err(_) => (),
        }
    }

    /// Processes one batch: every item is submitted first (so a duplicate
    /// identifier within the batch is dropped while the first is in flight),
    /// then each accepted document is rendered and completed. After the
    /// batch settles, the in-flight set is exactly what it was, and the
    /// store has gained exactly the renders that succeeded, in order, each
    /// exactly once.
    pub fn run_batch(&mut self, items: Vec<UploadItem>) -> (outcomes: Vec<SubmitOutcome>)
        requires
            old(self).wf(),
        ensures
            final(self).wf(),
            final(self).config_spec() == old(self).config_spec(),
            final(self).pending_ids() =~= old(self).pending_ids(),
            outcomes@.len() == items@.len(),
            forall|i: int|
                0 <= i < items@.len() ==> ((#[trigger] outcomes@[i]) == SubmitOutcome::Rejected
                    <==> items@[i].media_type@ != pdf_media_type() || spec_stem(
                    items@[i].filename@,
                ).len() == 0),
            forall|i: int|
                0 <= i < items@.len() ==> ((#[trigger] outcomes@[i]) == SubmitOutcome::Duplicate
                    <==> decision_at(old(self).pending_ids(), items@, i)
                    == SubmitDecision::Duplicate),
            forall|i: int|
                0 <= i < items@.len() ==> ((outcomes@[i] is Completed || outcomes@[i] is Failed)
                    <==> decision_at(old(self).pending_ids(), items@, i)
                    == SubmitDecision::Accepted),
            forall|i: int|
                0 <= i < items@.len() ==> ((#[trigger] outcomes@[i]) == SubmitOutcome::Failed(
                    RenderError::DecodeFailure,
                ) <==> decision_at(old(self).pending_ids(), items@, i) == SubmitDecision::Accepted
                    && !pdf_parses(items@[i].bytes@)),
            forall|i: int|
                0 <= i < items@.len() ==> ((#[trigger] outcomes@[i]) == SubmitOutcome::Failed(
                    RenderError::EmptyDocument,
                ) <==> decision_at(old(self).pending_ids(), items@, i) == SubmitDecision::Accepted
                    && pdf_parses(items@[i].bytes@) && pdf_page_count_of(items@[i].bytes@) == 0),
            final(self).docs().len() == old(self).docs().len() + completed_before(
                outcomes@,
                items@.len() as int,
            ),
            forall|k: int|
                0 <= k < old(self).docs().len() ==> final(self).docs()[k] == old(self).docs()[k],
            forall|i: int|
                0 <= i < items@.len() && outcomes@[i] is Completed ==> doc_ok(
                    final(self).docs()[old(self).docs().len() + completed_before(outcomes@, i) as int],
                    spec_stem(items@[i].filename@),
                    items@[i].declared_size as nat,
                    old(self).config_spec(),
                ),
    {
        let ghost ids0 = self.pending_ids();
        let ghost docs0 = self.docs();
        let ghost items_seq = items@;
        let ghost cfg0 = self.config_spec();
        let n = items.len();

        // Submission phase: register every accepted identifier before any
        // render completes, as concurrent renders would.
        let mut decisions: Vec<SubmitDecision> = Vec::new();
        let mut i: usize = 0;
        while i < n
            invariant
                self.wf(),
                n == items_seq.len(),
                items@ == items_seq,
                i <= n,
                decisions.len() == i,
                self.docs() == docs0,
                self.config_spec() == cfg0,
                self.pending_ids() =~= ids0 + accepted_stems(ids0, items_seq.take(i as int)),
                forall|j: int|
                    0 <= j < i ==> (#[trigger] decisions@[j]) == decision_at(ids0, items_seq, j),
            decreases n - i,
        {
            let d = self.submit(&items[i]);
            decisions.push(d);
            proof {
                lemma_accepted_stems_step(ids0, items_seq, i as int);
                if d == SubmitDecision::Accepted {
                    assert(self.pending_ids() =~= ids0 + accepted_stems(
                        ids0,
                        items_seq.take(i + 1int),
                    ));
                }
            }
            i += 1;
        }
        proof {
            assert(items_seq.take(n as int) =~= items_seq);
            lemma_accepted_stems_prefix(ids0, items_seq, n as int);
        }
        let ghost stems = accepted_stems(ids0, items_seq);

        // Render phase: each accepted document renders independently; its
        // completion releases the task slot and, on success, appends.
        let mut remaining = items;
        let mut outcomes: Vec<SubmitOutcome> = Vec::new();
        let mut i: usize = 0;
        while i < n
            invariant
                self.wf(),
                n == items_seq.len(),
                n == decisions.len(),
                i <= n,
                remaining@ =~= items_seq.skip(i as int),
                outcomes.len() == i,
                self.config_spec() == cfg0,
                forall|j: int|
                    0 <= j < n ==> (#[trigger] decisions@[j]) == decision_at(ids0, items_seq, j),
                stems == accepted_stems(ids0, items_seq),
                forall|a: int, b: int|
                    0 <= a < b < (ids0 + stems).len() ==> (ids0 + stems)[a] != (ids0 + stems)[b],
                accepted_stems(ids0, items_seq.take(i as int)).len() <= stems.len(),
                self.pending_ids() =~= ids0 + stems.skip(
                    accepted_stems(ids0, items_seq.take(i as int)).len() as int,
                ),
                forall|j: int|
                    0 <= j < i ==> ((#[trigger] outcomes@[j]) == SubmitOutcome::Rejected <==> (
                    decisions@[j] == SubmitDecision::Rejected)),
                forall|j: int|
                    0 <= j < i ==> ((#[trigger] outcomes@[j]) == SubmitOutcome::Duplicate <==> (
                    decisions@[j] == SubmitDecision::Duplicate)),
                forall|j: int|
                    0 <= j < i ==> ((outcomes@[j] is Completed || outcomes@[j] is Failed) <==> (
                    decisions@[j] == SubmitDecision::Accepted)),
                forall|j: int|
                    0 <= j < i ==> ((#[trigger] outcomes@[j]) == SubmitOutcome::Failed(
                        RenderError::DecodeFailure,
                    ) <==> decisions@[j] == SubmitDecision::Accepted && !pdf_parses(
                        items_seq[j].bytes@,
                    )),
                forall|j: int|
                    0 <= j < i ==> ((#[trigger] outcomes@[j]) == SubmitOutcome::Failed(
                        RenderError::EmptyDocument,
                    ) <==> decisions@[j] == SubmitDecision::Accepted && pdf_parses(
                        items_seq[j].bytes@,
                    ) && pdf_page_count_of(items_seq[j].bytes@) == 0),
                self.docs().len() == docs0.len() + completed_before(outcomes@, i as int),
                forall|k: int| 0 <= k < docs0.len() ==> self.docs()[k] == docs0[k],
                forall|j: int|
                    0 <= j < i && outcomes@[j] is Completed ==> doc_ok(
                        self.docs()[docs0.len() + completed_before(outcomes@, j) as int],
                        spec_stem(items_seq[j].filename@),
                        items_seq[j].declared_size as nat,
                        cfg0,
                    ),
            decreases n - i,
        {
            let ghost pre_remaining = remaining@;
            let item = remaining.remove(0);
            proof {
                assert(item == items_seq[i as int]);
                assert(remaining@ =~= items_seq.skip(i + 1int));
                lemma_accepted_stems_step(ids0, items_seq, i as int);
                lemma_accepted_stems_prefix(ids0, items_seq, i + 1int);
            }
            let ghost rank = accepted_stems(ids0, items_seq.take(i as int)).len() as int;
            let d = decisions[i];
            let ghost pre_outcomes = outcomes@;
            let ghost pre_docs = self.docs();
            match d {
                SubmitDecision::Rejected => {
                    outcomes.push(SubmitOutcome::Rejected);
                },
                SubmitDecision::Duplicate => {
                    outcomes.push(SubmitOutcome::Duplicate);
                },
                SubmitDecision::Accepted => {
                    proof {
                        // The identifier accepted here is the next one still
                        // in flight.
                        assert(accepted_stems(ids0, items_seq.take(i + 1int)) == accepted_stems(
                            ids0,
                            items_seq.take(i as int),
                        ).push(spec_stem(items_seq[i as int].filename@)));
                        assert(stems.take(rank + 1)[rank] == stems[rank]);
                        assert(stems[rank] == spec_stem(items_seq[i as int].filename@));
                    }
                    let id = derive_identifier(item.filename.as_str());
                    let result = render_document(&id, item.bytes, item.declared_size, &self.config);
                    let outcome = match &result {
                        Ok(_) => SubmitOutcome::Completed,
                        Err(e) => SubmitOutcome::Failed(*e),
                    };
                    proof {
                        // `id` is pending: it sits right after `ids0` in the
                        // in-flight sequence.
                        assert(self.pending_ids()[ids0.len() as int] == stems.skip(rank)[0]);
                        assert(self.pending_ids()[ids0.len() as int] == id@);
                        assert(self.is_pending(id@));
                    }
                    let ghost pre_pending = self.pending_ids();
                    let ghost res_g = result;
                    self.on_complete(&id, result);
                    proof {
                        if res_g is Ok {
                            assert(self.docs() =~= pre_docs.push(res_g.unwrap()));
                            assert(doc_ok(
                                res_g.unwrap(),
                                id@,
                                item.declared_size as nat,
                                cfg0,
                            ));
                            assert(pre_docs.len() == docs0.len() + completed_before(
                                pre_outcomes,
                                i as int,
                            ));
                            assert(self.docs()[pre_docs.len() as int] == res_g.unwrap());
                        }
                        let k = choose|k: int|
                            0 <= k < pre_pending.len() && pre_pending[k] == id@
                                && self.pending_ids() =~= pre_pending.remove(k);
                        // Distinctness pins the removed position.
                        assert forall|a: int|
                            0 <= a < pre_pending.len() && pre_pending[a] == id@ implies a
                            == ids0.len() as int by {
                            assert(pre_pending[a] == (ids0 + stems)[if a < ids0.len() {
                                a
                            } else {
                                a + rank
                            }]);
                            assert((ids0 + stems)[ids0.len() + rank] == id@);
                        }
                        assert(k == ids0.len() as int);
                        assert(self.pending_ids() =~= ids0 + stems.skip(rank + 1));
                    }
                    outcomes.push(outcome);
                },
            }
            proof {
                assert(outcomes@ == pre_outcomes.push(outcomes@.last()));
                lemma_completed_before_push(pre_outcomes, outcomes@.last(), i as int);
                assert forall|j: int| 0 <= j <= i implies completed_before(outcomes@, j)
                    == completed_before(pre_outcomes, j) by {
                    lemma_completed_before_push(pre_outcomes, outcomes@.last(), j);
                }
                assert forall|j: int| 0 <= j < i && outcomes@[j] is Completed implies doc_ok(
                    self.docs()[docs0.len() + completed_before(outcomes@, j) as int],
                    spec_stem(items_seq[j].filename@),
                    items_seq[j].declared_size as nat,
                    cfg0,
                ) by {
                    lemma_completed_before_mono(pre_outcomes, j + 1, i as int);
                    assert(pre_outcomes[j] is Completed);
                    assert(docs0.len() + completed_before(pre_outcomes, j) < pre_docs.len());
                    assert(self.docs()[docs0.len() + completed_before(pre_outcomes, j) as int]
                        == pre_docs[docs0.len() + completed_before(pre_outcomes, j) as int]);
                }
            }
            i += 1;
        }
        proof {
            assert(items_seq.take(n as int) =~= items_seq);
            assert(stems.skip(stems.len() as int) =~= Seq::<Seq<char>>::empty());
            assert(ids0 + stems.skip(stems.len() as int) =~= ids0);
        }
        outcomes
    }
}

} // verus!
