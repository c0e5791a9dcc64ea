//! The filter engine: it validates rules, compiles each into one enforcement
//! unit per layer, submits the units to a backend and keeps the registry of
//! the identifiers that are installed.
//!
//! An engine starts uninitialised, is ready once a session is open, and is
//! closed for good after cleanup. A unit that the backend refuses, an
//! identifier that it cannot delete, a rule that is not valid and a rule
//! that asks for what is not supported are passed over; only the failure of
//! a whole operation is reported.
//!
//! What the engine asks of the backend is part of each contract: the
//! backend's own relations, one per request, are chained through the states
//! that the backend goes through.

use vstd::prelude::*;
use crate::backend::{
    lemma_without_first_absent,
    lemma_without_first_keeps,
    remove_first,
    without_first,
    Backend,
    DeleteFailed,
    SessionCloseFailed,
    SessionHandle,
    SessionOpenFailed,
    SimBackend,
    SubmitFailed,
};
use crate::condition::{build_unit, rule_not_supported, unit_for};
use crate::layer::{get_layers_for_rule, layer_name, layer_with_key, rule_layers, Layer, GUID};
use crate::rule::FilterRule;

verus! {

/// Where an engine is in its life.
#[derive(Clone, Copy, Debug, PartialEq, Eq, Structural)]
pub enum EngineState {
    Uninitialized,
    Ready,
    Closed,
}

/// The failures of a whole operation.
#[derive(Clone, Copy, Debug, PartialEq, Eq, Structural)]
pub enum EngineError {
    /// The backend did not open a session.
    SessionOpenFailed,
    /// The backend did not close the session.
    SessionCloseFailed,
    /// Not one unit of a whole batch of rules was installed.
    BatchAddFailed,
}

/// The filter engine over a backend `B`.
pub struct WfpController<B: Backend> {
    pub backend: B,
    pub session: Option<SessionHandle>,
    pub state: EngineState,
    /// The registry: the identifiers that are installed, oldest first.
    pub filter_ids: Vec<u64>,
}

/// The identifiers among the outcomes of a run of submissions, in order.
pub open spec fn accepted(outcomes: Seq<Result<u64, SubmitFailed>>) -> Seq<u64>
    decreases outcomes.len(),
{
    if outcomes.len() == 0 {
        Seq::<u64>::empty()
    } else {
        match outcomes.last() {
            Ok(id) => accepted(outcomes.drop_last()).push(id),
            Err(_) => accepted(outcomes.drop_last()),
        }
    }
}

/// The number of units that installing a rule submits: one per layer for a
/// valid rule, none for another.
pub open spec fn rule_unit_count(rule: &FilterRule) -> nat {
    if rule.is_valid() {
        rule_layers(rule).len()
    } else {
        0
    }
}

/// The number of units that installing a batch of rules submits.
pub open spec fn batch_unit_count(rules: Seq<FilterRule>) -> nat
    decreases rules.len(),
{
    if rules.len() == 0 {
        0
    } else {
        batch_unit_count(rules.drop_last()) + rule_unit_count(&rules.last())
    }
}

/// Whether `after` is the rule `before` once the outcomes of its submissions
/// were recorded: the identifiers that came back follow those it had, and
/// nothing else has changed.
pub open spec fn rule_recorded(
    before: &FilterRule,
    after: &FilterRule,
    outcomes: Seq<Result<u64, SubmitFailed>>,
) -> bool {
    &&& *after == (FilterRule { filter_ids: after.filter_ids, ..*before })
    &&& after.filter_ids@ == before.filter_ids@ + accepted(outcomes)
}

/// Whether `outcomes` can be the outcomes of installing the rules: for each
/// rule one outcome per unit that is submitted for it.
pub open spec fn outcomes_fit(
    rules: Seq<FilterRule>,
    outcomes: Seq<Seq<Result<u64, SubmitFailed>>>,
) -> bool {
    &&& outcomes.len() == rules.len()
    &&& forall|i: int|
        0 <= i < rules.len() ==> (#[trigger] outcomes[i]).len() == rule_unit_count(&rules[i])
}

/// Whether `after` are the rules `before` once the outcomes of each rule
/// were recorded with it.
pub open spec fn batch_recorded(
    before: Seq<FilterRule>,
    after: Seq<FilterRule>,
    outcomes: Seq<Seq<Result<u64, SubmitFailed>>>,
) -> bool {
    &&& after.len() == before.len()
    &&& outcomes.len() == before.len()
    &&& forall|i: int|
        0 <= i < before.len() ==> rule_recorded(&before[i], &after[i], #[trigger] outcomes[i])
}

/// The identifiers among the outcomes of a batch, rule after rule.
pub open spec fn batch_accepted(outcomes: Seq<Seq<Result<u64, SubmitFailed>>>) -> Seq<u64>
    decreases outcomes.len(),
{
    if outcomes.len() == 0 {
        Seq::<u64>::empty()
    } else {
        batch_accepted(outcomes.drop_last()) + accepted(outcomes.last())
    }
}

/// What a batch returns: the identifiers that came back, or the report that
/// none did.
pub open spec fn batch_result(outcomes: Seq<Seq<Result<u64, SubmitFailed>>>) -> Result<
    Seq<u64>,
    EngineError,
> {
    if batch_accepted(outcomes).len() > 0 {
        Ok(batch_accepted(outcomes))
    } else {
        Err(EngineError::BatchAddFailed)
    }
}

/// The registry and the count after the identifiers `ids` were asked to be
/// deleted one after the other, where `deleted[k]` tells whether the
/// backend deleted `ids[k]`. An identifier is removed and counted where the
/// backend deleted it and the registry held it.
pub open spec fn after_deletions(registry: Seq<u64>, ids: Seq<u64>, deleted: Seq<bool>) -> (
    Seq<u64>,
    nat,
)
    recommends
        ids.len() == deleted.len(),
    decreases ids.len(),
{
    if ids.len() == 0 || deleted.len() == 0 {
        (registry, 0)
    } else {
        let (reg, count) = after_deletions(registry, ids.drop_last(), deleted.drop_last());
        if deleted.last() && reg.contains(ids.last()) {
            (without_first(reg, ids.last()), count + 1)
        } else {
            (reg, count)
        }
    }
}

/// Whether `outcome` can be the outcome of installing `rule` on `layer`
/// with the backend as it is in `before`, leaving it as it is in `after`. A
/// rule that asks for what is not supported is refused without a word to
/// the backend. Any other is compiled for the layer and submitted under the
/// rule's name, and the outcome is what the backend makes of it.
pub open spec fn unit_submitted<B: Backend>(
    before: &B,
    session: &SessionHandle,
    rule: &FilterRule,
    layer: Layer,
    outcome: Result<u64, SubmitFailed>,
    after: &B,
) -> bool {
    if rule_not_supported(rule).len() > 0 {
        outcome == Err::<u64, SubmitFailed>(SubmitFailed::NotSupported) && *after == *before
    } else {
        before.submission(session, unit_for(rule, layer), rule.name@, outcome, after)
    }
}

/// Whether `outcomes` can be the outcomes of installing `rule`, while the
/// backend goes through `states`: nothing is submitted for a rule that is
/// not valid; for a valid one, one unit per layer, in the order of the
/// layers, each to the backend as the one before left it.
pub open spec fn rule_submitted<B: Backend>(
    session: &SessionHandle,
    rule: &FilterRule,
    states: Seq<B>,
    outcomes: Seq<Result<u64, SubmitFailed>>,
) -> bool {
    &&& outcomes.len() == rule_unit_count(rule)
    &&& states.len() == outcomes.len() + 1
    &&& forall|k: int|
        0 <= k < outcomes.len() ==> unit_submitted(
            &states[k],
            session,
            rule,
            rule_layers(rule)[k],
            #[trigger] outcomes[k],
            &states[k + 1],
        )
}

/// Whether `outcomes` can be the outcomes of installing the rules one after
/// the other, with the backend as it is in `start` at first and as it is in
/// `end` at last.
pub open spec fn batch_submitted<B: Backend>(
    session: &SessionHandle,
    rules: Seq<FilterRule>,
    start: B,
    outcomes: Seq<Seq<Result<u64, SubmitFailed>>>,
    end: B,
) -> bool
    decreases rules.len(),
{
    if rules.len() == 0 {
        outcomes.len() == 0 && end == start
    } else {
        &&& outcomes.len() == rules.len()
        &&& exists|states: Seq<B>|
            {
                &&& #[trigger] rule_submitted(session, &rules.last(), states, outcomes.last())
                &&& batch_submitted(
                    session,
                    rules.drop_last(),
                    start,
                    outcomes.drop_last(),
                    states[0],
                )
                &&& states.last() == end
            }
    }
}

/// What the backend is told when it did, or did not, delete.
pub open spec fn delete_reply(deleted: bool) -> Result<(), DeleteFailed> {
    if deleted {
        Ok(())
    } else {
        Err(DeleteFailed)
    }
}

/// Whether the backend, going through `states`, was asked to delete each of
/// `ids` once and in order, and deleted `ids[k]` exactly where `deleted[k]`
/// says so.
pub open spec fn deletions_asked<B: Backend>(
    session: &SessionHandle,
    ids: Seq<u64>,
    states: Seq<B>,
    deleted: Seq<bool>,
) -> bool {
    &&& deleted.len() == ids.len()
    &&& states.len() == ids.len() + 1
    &&& forall|k: int|
        0 <= k < ids.len() ==> (#[trigger] states[k]).deletion(
            session,
            ids[k],
            delete_reply(deleted[k]),
            &states[k + 1],
        )
}

/// The backend's reply to closing that a result of `cleanup` stands for.
pub open spec fn close_reply(r: Result<(), EngineError>) -> Result<(), SessionCloseFailed> {
    match r {
        Ok(_) => Ok(()),
        Err(_) => Err(SessionCloseFailed),
    }
}

impl<B: Backend> WfpController<B> {
    /// Whether the engine is ready, with its session open.
    pub open spec fn is_ready(&self) -> bool {
        self.state == EngineState::Ready && self.session is Some
    }

    /// An engine over `backend` that is not yet initialised and has
    /// installed nothing.
    pub fn new(backend: B) -> (c: Self)
        ensures
            c.backend == backend,
            c.session is None,
            c.state == EngineState::Uninitialized,
            c.filter_ids@.len() == 0,
    {
        WfpController {
            backend,
            session: None,
            state: EngineState::Uninitialized,
            filter_ids: Vec::new(),
        }
    }

    /// Takes note of how opening the session went. With a session the
    /// engine is ready; without one nothing changes and the failure is
    /// reported.
    pub fn session_opened(&mut self, outcome: Result<SessionHandle, SessionOpenFailed>) -> (r:
        Result<(), EngineError>)
        requires
            old(self).state == EngineState::Uninitialized,
        ensures
            final(self).backend == old(self).backend,
            final(self).filter_ids == old(self).filter_ids,
            match outcome {
                Ok(handle) => r == Ok::<(), EngineError>(()) && final(self).session == Some(handle)
                    && final(self).state == EngineState::Ready,
                Err(_) => r == Err::<(), EngineError>(EngineError::SessionOpenFailed)
                    && final(self).session == old(self).session
                    && final(self).state == old(self).state,
            },
    {
        match outcome {
            Ok(handle) => {
                self.session = Some(handle);
                self.state = EngineState::Ready;
                Ok(())
            },
            Err(_) => Err(EngineError::SessionOpenFailed),
        }
    }

    /// Asks the backend to open a session. The engine is ready, with the
    /// session that came back, if the backend opened one, and stays as it
    /// was, with the failure reported, if not.
    pub fn initialize(&mut self) -> (r: Result<(), EngineError>)
        requires
            old(self).state == EngineState::Uninitialized,
        ensures
            final(self).filter_ids == old(self).filter_ids,
            match r {
                Ok(_) => {
                    &&& final(self).is_ready()
                    &&& old(self).backend.opening(
                        Ok::<SessionHandle, SessionOpenFailed>(final(self).session->0),
                        &final(self).backend,
                    )
                },
                Err(e) => {
                    &&& e == EngineError::SessionOpenFailed
                    &&& final(self).state == EngineState::Uninitialized
                    &&& final(self).session == old(self).session
                    &&& old(self).backend.opening(
                        Err::<SessionHandle, SessionOpenFailed>(SessionOpenFailed),
                        &final(self).backend,
                    )
                },
            },
    {
        let outcome = self.backend.open_session();
        let ghost reply = outcome;
        let r = self.session_opened(outcome);
        proof {
            match reply {
                Ok(handle) => {
                    assert(reply == Ok::<SessionHandle, SessionOpenFailed>(self.session->0));
                },
                Err(e) => {
                    assert(reply == Err::<SessionHandle, SessionOpenFailed>(SessionOpenFailed));
                },
            }
        }
        r
    }

    /// Installs `rule` on `layer`. A rule that asks for what is not
    /// supported is refused here, and the backend hears nothing of it. Any
    /// other is compiled for the layer and submitted under the rule's name
    /// in the engine's session, and what comes back is what the backend
    /// makes of that submission. The registry is not touched.
    pub fn add_network_filter(&mut self, rule: &FilterRule, layer: Layer) -> (r: Result<
        u64,
        SubmitFailed,
    >)
        requires
            old(self).is_ready(),
        ensures
            final(self).session == old(self).session,
            final(self).state == old(self).state,
            final(self).filter_ids == old(self).filter_ids,
            unit_submitted(
                &old(self).backend,
                &old(self).session->0,
                rule,
                layer,
                r,
                &final(self).backend,
            ),
    {
        let (unit, not_supported) = build_unit(rule, layer);
        if not_supported.len() > 0 {
            return Err(SubmitFailed::NotSupported);
        }
        match &self.session {
            Some(session) => self.backend.submit(session, &unit, rule.name.as_str()),
            None => Err(SubmitFailed::Unknown),
        }
    }

    /// Takes note of the outcomes of the submissions for one rule: each
    /// identifier that came back is added to the rule, to the batch's list
    /// and to the registry. A refused submission leaves no trace.
    pub fn record_submissions(
        &mut self,
        rule: &mut FilterRule,
        added: &mut Vec<u64>,
        outcomes: &Vec<Result<u64, SubmitFailed>>,
    )
        requires
            old(self).is_ready(),
        ensures
            final(self).backend == old(self).backend,
            final(self).session == old(self).session,
            final(self).state == old(self).state,
            final(self).filter_ids@ == old(self).filter_ids@ + accepted(outcomes@),
            final(added)@ == old(added)@ + accepted(outcomes@),
            final(rule).filter_ids@ == old(rule).filter_ids@ + accepted(outcomes@),
            *final(rule) == (FilterRule { filter_ids: final(rule).filter_ids, ..*old(rule) }),
    {
        let mut i: usize = 0;
        while i < outcomes.len()
            invariant
                i <= outcomes.len(),
                self.backend == old(self).backend,
                self.session == old(self).session,
                self.state == old(self).state,
                self.filter_ids@ == old(self).filter_ids@ + accepted(outcomes@.take(i as int)),
                added@ == old(added)@ + accepted(outcomes@.take(i as int)),
                rule.filter_ids@ == old(rule).filter_ids@ + accepted(outcomes@.take(i as int)),
                *rule == (FilterRule { filter_ids: rule.filter_ids, ..*old(rule) }),
            decreases outcomes.len() - i,
        {
            proof {
                assert(outcomes@.take(i + 1).drop_last() =~= outcomes@.take(i as int));
                assert(outcomes@.take(i + 1).last() == outcomes@[i as int]);
            }
            match outcomes[i] {
                Ok(id) => {
                    rule.filter_ids.push(id);
                    added.push(id);
                    self.filter_ids.push(id);
                },
                Err(_) => {},
            }
            i = i + 1;
        }
        assert(outcomes@.take(i as int) =~= outcomes@);
    }

    /// Ends a batch: the identifiers that were added, or the report that
    /// none was.
    pub fn conclude_batch(added: Vec<u64>) -> (r: Result<Vec<u64>, EngineError>)
        ensures
            r matches Ok(ids) ==> ids == added && added@.len() > 0,
            r matches Err(e) ==> e == EngineError::BatchAddFailed && added@.len() == 0,
    {
        if added.len() > 0 {
            Ok(added)
        } else {
            Err(EngineError::BatchAddFailed)
        }
    }

    /// Installs one rule: a rule that is not valid is passed over; a valid
    /// one is installed on each of its layers in turn, and what came back
    /// is recorded.
    pub fn install_rule(&mut self, rule: &mut FilterRule, added: &mut Vec<u64>)
        requires
            old(self).is_ready(),
        ensures
            final(self).session == old(self).session,
            final(self).state == old(self).state,
            exists|outcomes: Seq<Result<u64, SubmitFailed>>, states: Seq<B>|
                {
                    &&& #[trigger] rule_submitted(
                        &old(self).session->0,
                        old(rule),
                        states,
                        outcomes,
                    )
                    &&& states[0] == old(self).backend
                    &&& states.last() == final(self).backend
                    &&& rule_recorded(old(rule), final(rule), outcomes)
                    &&& final(self).filter_ids@ == old(self).filter_ids@ + accepted(outcomes)
                    &&& final(added)@ == old(added)@ + accepted(outcomes)
                },
    {
        if rule.validate().is_err() {
            proof {
                let none = Seq::<Result<u64, SubmitFailed>>::empty();
                let states = seq![self.backend];
                assert(rule.filter_ids@ =~= rule.filter_ids@ + accepted(none));
                assert(self.filter_ids@ =~= self.filter_ids@ + accepted(none));
                assert(added@ =~= added@ + accepted(none));
                assert(rule_recorded(old(rule), rule, none));
                assert(rule_submitted(&old(self).session->0, old(rule), states, none));
            }
            return ;
        }
        let layers = get_layers_for_rule(rule);
        let mut outcomes: Vec<Result<u64, SubmitFailed>> = Vec::new();
        let ghost mut states: Seq<B> = seq![self.backend];
        let mut k: usize = 0;
        while k < layers.len()
            invariant
                k <= layers.len(),
                layers@ == rule_layers(old(rule)),
                outcomes.len() == k,
                states.len() == k + 1,
                states[0] == old(self).backend,
                states.last() == self.backend,
                forall|j: int|
                    0 <= j < k ==> unit_submitted(
                        &states[j],
                        &old(self).session->0,
                        old(rule),
                        layers@[j],
                        #[trigger] outcomes@[j],
                        &states[j + 1],
                    ),
                self.is_ready(),
                self.session == old(self).session,
                self.state == old(self).state,
                self.filter_ids == old(self).filter_ids,
                *rule == *old(rule),
                *added == *old(added),
            decreases layers.len() - k,
        {
            let ghost before = states;
            let outcome = self.add_network_filter(rule, layers[k]);
            outcomes.push(outcome);
            proof {
                states = states.push(self.backend);
                assert forall|j: int| 0 <= j < k + 1 implies unit_submitted(
                    &states[j],
                    &old(self).session->0,
                    old(rule),
                    layers@[j],
                    #[trigger] outcomes@[j],
                    &states[j + 1],
                ) by {
                    if j < k {
                        assert(states[j] == before[j]);
                        assert(states[j + 1] == before[j + 1]);
                    }
                }
            }
            k = k + 1;
        }
        self.record_submissions(rule, added, &outcomes);
        proof {
            assert(rule_recorded(old(rule), rule, outcomes@));
            assert(rule_submitted(&old(self).session->0, old(rule), states, outcomes@));
        }
    }

    /// Installs a batch of rules, one after the other. Rules that are not
    /// valid or not supported and units that the backend refuses are passed
    /// over. The identifiers that came back are recorded with their rules
    /// and in the registry and are returned, unless there is none: then the
    /// batch has failed, and neither the registry nor a rule has changed.
    pub fn add_filters(&mut self, rules: &mut Vec<FilterRule>) -> (r: Result<Vec<u64>, EngineError>)
        requires
            old(self).is_ready(),
        ensures
            final(self).session == old(self).session,
            final(self).state == old(self).state,
            final(rules).len() == old(rules).len(),
            exists|outcomes: Seq<Seq<Result<u64, SubmitFailed>>>|
                {
                    &&& #[trigger] batch_submitted(
                        &old(self).session->0,
                        old(rules)@,
                        old(self).backend,
                        outcomes,
                        final(self).backend,
                    )
                    &&& outcomes_fit(old(rules)@, outcomes)
                    &&& batch_recorded(old(rules)@, final(rules)@, outcomes)
                    &&& final(self).filter_ids@ == old(self).filter_ids@ + batch_accepted(outcomes)
                    &&& match r {
                        Ok(ids) => batch_result(outcomes) == Ok::<Seq<u64>, EngineError>(ids@),
                        Err(e) => batch_result(outcomes) == Err::<Seq<u64>, EngineError>(e),
                    }
                },
            r matches Ok(ids) ==> ids@.len() > 0 && final(self).filter_ids@ == old(self).filter_ids@
                + ids@,
            r matches Err(e) ==> e == EngineError::BatchAddFailed && final(self).filter_ids@ == old(
                self,
            ).filter_ids@,
            forall|i: int|
                0 <= i < old(rules).len() && (r is Err || !old(rules)[i].is_valid()) ==> (
                #[trigger] final(rules)[i]).filter_ids@ == old(rules)[i].filter_ids@,
    {
        let mut added: Vec<u64> = Vec::new();
        let ghost mut all: Seq<Seq<Result<u64, SubmitFailed>>> = Seq::empty();
        let ghost session = self.session->0;
        let mut i: usize = 0;
        assert(old(rules)@.take(0) =~= Seq::<FilterRule>::empty());
        while i < rules.len()
            invariant
                i <= rules.len(),
                rules.len() == old(rules).len(),
                self.is_ready(),
                self.session == old(self).session,
                self.state == old(self).state,
                session == old(self).session->0,
                all.len() == i,
                batch_submitted(
                    &session,
                    old(rules)@.take(i as int),
                    old(self).backend,
                    all,
                    self.backend,
                ),
                forall|j: int|
                    0 <= j < i ==> (#[trigger] all[j]).len() == rule_unit_count(&old(rules)[j])
                        && rule_recorded(&old(rules)[j], &rules[j], all[j]),
                forall|j: int| i <= j < rules.len() ==> rules[j] == old(rules)[j],
                added@ == batch_accepted(all),
                self.filter_ids@ == old(self).filter_ids@ + added@,
            decreases rules.len() - i,
        {
            let ghost before = rules@;
            let ghost mine = self.filter_ids@;
            let ghost backend_before = self.backend;
            let ghost added_before = added@;
            self.install_rule(&mut rules[i], &mut added);
            proof {
                let after = rules@[i as int];
                let (outcomes, states) = choose|
                    outcomes: Seq<Result<u64, SubmitFailed>>,
                    states: Seq<B>,
                |
                    {
                        &&& #[trigger] rule_submitted(&session, &before[i as int], states, outcomes)
                        &&& states[0] == backend_before
                        &&& states.last() == self.backend
                        &&& rule_recorded(&before[i as int], &after, outcomes)
                        &&& self.filter_ids@ == mine + accepted(outcomes)
                        &&& added@ == added_before + accepted(outcomes)
                    };
                let front = all;
                all = all.push(outcomes);
                assert(all.drop_last() =~= front);
                assert(all.last() == outcomes);
                assert(self.filter_ids@ =~= old(self).filter_ids@ + added@);
                let taken = old(rules)@.take(i + 1);
                assert(taken.drop_last() =~= old(rules)@.take(i as int));
                assert(taken.last() == before[i as int]);
                assert(rule_submitted(&session, &taken.last(), states, all.last()));
                assert(batch_submitted(&session, taken, old(self).backend, all, self.backend));
                assert forall|j: int| 0 <= j < i + 1 implies (#[trigger] all[j]).len()
                    == rule_unit_count(&old(rules)[j]) && rule_recorded(
                    &old(rules)[j],
                    &rules[j],
                    all[j],
                ) by {
                    if j < i {
                        assert(all[j] == front[j]);
                        assert(rules[j] == before[j]);
                    }
                }
            }
            i = i + 1;
        }
        proof {
            assert(old(rules)@.take(i as int) =~= old(rules)@);
            assert(outcomes_fit(old(rules)@, all));
            assert(batch_recorded(old(rules)@, rules@, all));
            lemma_batch_bounds(old(rules)@, all);
            assert forall|j: int|
                0 <= j < old(rules).len() && (added@.len() == 0 || !old(rules)[j].is_valid()) implies (
            #[trigger] rules[j]).filter_ids@ == old(rules)[j].filter_ids@ by {
                assert(rule_recorded(&old(rules)[j], &rules[j], all[j]));
                assert(accepted(all[j]).len() == 0);
                assert(rules[j].filter_ids@ =~= old(rules)[j].filter_ids@);
            }
            if added@.len() == 0 {
                assert(self.filter_ids@ =~= old(self).filter_ids@);
            }
        }
        Self::conclude_batch(added)
    }

    /// Takes note of how deleting `id` went: the identifier leaves the
    /// registry, and counts, where the backend deleted it and the registry
    /// held it.
    pub fn record_deletion(&mut self, id: u64, outcome: Result<(), DeleteFailed>) -> (counted: bool)
        requires
            old(self).is_ready(),
        ensures
            final(self).backend == old(self).backend,
            final(self).session == old(self).session,
            final(self).state == old(self).state,
            counted == (outcome is Ok && old(self).filter_ids@.contains(id)),
            final(self).filter_ids@ == (if counted {
                without_first(old(self).filter_ids@, id)
            } else {
                old(self).filter_ids@
            }),
    {
        match outcome {
            Ok(()) => {
                proof {
                    if !self.filter_ids@.contains(id) {
                        lemma_without_first_absent(self.filter_ids@, id);
                    }
                }
                remove_first(&mut self.filter_ids, id)
            },
            Err(_) => false,
        }
    }

    /// Asks the backend to delete each of the identifiers, once and in
    /// order, and returns how many left the registry. Identifiers that the
    /// registry does not hold or that the backend does not delete are
    /// passed over.
    pub fn delete_filters(&mut self, filter_ids: &[u64]) -> (r: Result<u32, EngineError>)
        requires
            old(self).is_ready(),
            filter_ids@.len() <= u32::MAX,
        ensures
            final(self).session == old(self).session,
            final(self).state == old(self).state,
            r is Ok,
            exists|deleted: Seq<bool>, states: Seq<B>|
                {
                    &&& #[trigger] deletions_asked(
                        &old(self).session->0,
                        filter_ids@,
                        states,
                        deleted,
                    )
                    &&& states[0] == old(self).backend
                    &&& states.last() == final(self).backend
                    &&& after_deletions(old(self).filter_ids@, filter_ids@, deleted) == (
                        final(self).filter_ids@,
                        r->Ok_0 as nat,
                    )
                },
    {
        let mut deleted_count: u32 = 0;
        let ghost mut deleted: Seq<bool> = Seq::empty();
        let ghost mut states: Seq<B> = seq![self.backend];
        let mut i: usize = 0;
        while i < filter_ids.len()
            invariant
                i <= filter_ids.len(),
                filter_ids@.len() <= u32::MAX,
                self.is_ready(),
                self.session == old(self).session,
                self.state == old(self).state,
                deleted.len() == i,
                states.len() == i + 1,
                states[0] == old(self).backend,
                states.last() == self.backend,
                forall|k: int|
                    0 <= k < i ==> (#[trigger] states[k]).deletion(
                        &old(self).session->0,
                        filter_ids@[k],
                        delete_reply(deleted[k]),
                        &states[k + 1],
                    ),
                deleted_count <= i,
                after_deletions(old(self).filter_ids@, filter_ids@.take(i as int), deleted) == (
                    self.filter_ids@,
                    deleted_count as nat,
                ),
            decreases filter_ids.len() - i,
        {
            let id = filter_ids[i];
            let outcome = match &self.session {
                Some(session) => self.backend.delete(session, id),
                None => Err(DeleteFailed),
            };
            let ghost front = deleted;
            let ghost before = states;
            proof {
                deleted = deleted.push(outcome is Ok);
                states = states.push(self.backend);
                match outcome {
                    Ok(unit) => {
                        assert(unit == ());
                    },
                    Err(e) => {
                        assert(e == DeleteFailed);
                    },
                }
                assert(outcome == delete_reply(outcome is Ok));
                assert(deleted.drop_last() =~= front);
                assert(filter_ids@.take(i + 1).drop_last() =~= filter_ids@.take(i as int));
                assert(filter_ids@.take(i + 1).last() == id);
                assert forall|k: int| 0 <= k < i + 1 implies (#[trigger] states[k]).deletion(
                    &old(self).session->0,
                    filter_ids@[k],
                    delete_reply(deleted[k]),
                    &states[k + 1],
                ) by {
                    if k < i {
                        assert(states[k] == before[k]);
                        assert(states[k + 1] == before[k + 1]);
                        assert(deleted[k] == front[k]);
                    }
                }
            }
            if self.record_deletion(id, outcome) {
                deleted_count = deleted_count + 1;
            }
            i = i + 1;
        }
        proof {
            assert(filter_ids@.take(i as int) =~= filter_ids@);
            assert(deletions_asked(&old(self).session->0, filter_ids@, states, deleted));
        }
        Ok(deleted_count)
    }

    /// Takes note of how closing the session went. The registry is emptied
    /// and the engine is closed whatever happened; that the session was not
    /// closed is reported.
    pub fn session_closed(&mut self, outcome: Result<(), SessionCloseFailed>) -> (r: Result<
        (),
        EngineError,
    >)
        requires
            old(self).is_ready(),
        ensures
            final(self).backend == old(self).backend,
            final(self).session is None,
            final(self).state == EngineState::Closed,
            final(self).filter_ids@.len() == 0,
            r == match outcome {
                Ok(_) => Ok::<(), EngineError>(()),
                Err(_) => Err::<(), EngineError>(EngineError::SessionCloseFailed),
            },
    {
        self.filter_ids.clear();
        self.session = None;
        self.state = EngineState::Closed;
        match outcome {
            Ok(()) => Ok(()),
            Err(_) => Err(EngineError::SessionCloseFailed),
        }
    }

    /// Asks the backend to delete every identifier in the registry, once
    /// and in order, then to close the session. Afterwards the registry is
    /// empty and the engine is closed, whatever the backend did. The result
    /// tells whether the session closed; that an identifier was not deleted
    /// is not reported.
    pub fn cleanup(&mut self) -> (r: Result<(), EngineError>)
        requires
            old(self).is_ready(),
        ensures
            final(self).filter_ids@.len() == 0,
            final(self).state == EngineState::Closed,
            final(self).session is None,
            r matches Err(e) ==> e == EngineError::SessionCloseFailed,
            exists|deleted: Seq<bool>, states: Seq<B>|
                {
                    &&& #[trigger] deletions_asked(
                        &old(self).session->0,
                        old(self).filter_ids@,
                        states,
                        deleted,
                    )
                    &&& states[0] == old(self).backend
                    &&& states.last().closing(
                        &old(self).session->0,
                        close_reply(r),
                        &final(self).backend,
                    )
                },
    {
        let ghost mut deleted: Seq<bool> = Seq::empty();
        let ghost mut states: Seq<B> = seq![self.backend];
        let mut i: usize = 0;
        while i < self.filter_ids.len()
            invariant
                i <= self.filter_ids.len(),
                self.is_ready(),
                self.session == old(self).session,
                self.filter_ids == old(self).filter_ids,
                deleted.len() == i,
                states.len() == i + 1,
                states[0] == old(self).backend,
                states.last() == self.backend,
                forall|k: int|
                    0 <= k < i ==> (#[trigger] states[k]).deletion(
                        &old(self).session->0,
                        old(self).filter_ids@[k],
                        delete_reply(deleted[k]),
                        &states[k + 1],
                    ),
            decreases self.filter_ids.len() - i,
        {
            let id = self.filter_ids[i];
            let outcome = match &self.session {
                Some(session) => self.backend.delete(session, id),
                None => Err(DeleteFailed),
            };
            proof {
                let front = deleted;
                let before = states;
                deleted = deleted.push(outcome is Ok);
                states = states.push(self.backend);
                match outcome {
                    Ok(unit) => {
                        assert(unit == ());
                    },
                    Err(e) => {
                        assert(e == DeleteFailed);
                    },
                }
                assert(outcome == delete_reply(outcome is Ok));
                assert forall|k: int| 0 <= k < i + 1 implies (#[trigger] states[k]).deletion(
                    &old(self).session->0,
                    old(self).filter_ids@[k],
                    delete_reply(deleted[k]),
                    &states[k + 1],
                ) by {
                    if k < i {
                        assert(states[k] == before[k]);
                        assert(states[k + 1] == before[k + 1]);
                        assert(deleted[k] == front[k]);
                    }
                }
            }
            i = i + 1;
        }
        let outcome = match &self.session {
            Some(session) => self.backend.close_session(session),
            None => Ok(()),
        };
        let ghost reply = outcome;
        let r = self.session_closed(outcome);
        proof {
            match reply {
                Ok(unit) => {
                    assert(unit == ());
                },
                Err(e) => {
                    assert(e == SessionCloseFailed);
                },
            }
            assert(reply == close_reply(r));
            assert(deletions_asked(
                &old(self).session->0,
                old(self).filter_ids@,
                states,
                deleted,
            ));
        }
        r
    }

    /// The name of the layer with the given identifier, for diagnostics.
    pub fn get_layer_name(&self, layer_key: &GUID) -> (name: &'static str)
        ensures
            name@ == layer_name(layer_with_key(layer_key.spec_to_u128())),
    {
        crate::layer::get_layer_name(layer_key)
    }
}

/// No more identifiers come back than submissions were made.
pub proof fn lemma_accepted_len(outcomes: Seq<Result<u64, SubmitFailed>>)
    ensures
        accepted(outcomes).len() <= outcomes.len(),
    decreases outcomes.len(),
{
    if outcomes.len() > 0 {
        lemma_accepted_len(outcomes.drop_last());
    }
}

/// Where every submission is refused, no identifier comes back.
pub proof fn lemma_all_refused(outcomes: Seq<Result<u64, SubmitFailed>>)
    requires
        forall|i: int| 0 <= i < outcomes.len() ==> (#[trigger] outcomes[i]) is Err,
    ensures
        accepted(outcomes).len() == 0,
    decreases outcomes.len(),
{
    if outcomes.len() > 0 {
        assert(outcomes.last() is Err);
        assert forall|i: int| 0 <= i < outcomes.drop_last().len() implies (
        #[trigger] outcomes.drop_last()[i]) is Err by {
            assert(outcomes.drop_last()[i] == outcomes[i]);
        }
        lemma_all_refused(outcomes.drop_last());
    }
}

/// Where every submission is accepted, each gives its identifier, in order.
pub proof fn lemma_all_accepted(outcomes: Seq<Result<u64, SubmitFailed>>)
    requires
        forall|i: int| 0 <= i < outcomes.len() ==> (#[trigger] outcomes[i]) is Ok,
    ensures
        accepted(outcomes).len() == outcomes.len(),
        forall|i: int| 0 <= i < outcomes.len() ==> outcomes[i] == Ok::<u64, SubmitFailed>(
            #[trigger] accepted(outcomes)[i],
        ),
    decreases outcomes.len(),
{
    if outcomes.len() > 0 {
        assert(outcomes.last() is Ok);
        let front = outcomes.drop_last();
        assert forall|i: int| 0 <= i < front.len() implies (#[trigger] front[i]) is Ok by {
            assert(front[i] == outcomes[i]);
        }
        lemma_all_accepted(front);
        assert forall|i: int| 0 <= i < outcomes.len() implies outcomes[i] == Ok::<
            u64,
            SubmitFailed,
        >(#[trigger] accepted(outcomes)[i]) by {
            if i < front.len() {
                assert(front[i] == outcomes[i]);
                assert(accepted(outcomes)[i] == accepted(front)[i]);
            }
        }
    }
}

/// The number of requests that the backend carried out for an identifier
/// that the registry `registry` holds.
pub open spec fn tracked_and_deleted(registry: Seq<u64>, ids: Seq<u64>, deleted: Seq<bool>) -> nat
    recommends
        ids.len() == deleted.len(),
    decreases ids.len(),
{
    if ids.len() == 0 || deleted.len() == 0 {
        0
    } else {
        tracked_and_deleted(registry, ids.drop_last(), deleted.drop_last()) + (if deleted.last()
            && registry.contains(ids.last()) {
            1nat
        } else {
            0nat
        })
    }
}

/// Deleting takes from the registry exactly as many identifiers as are
/// counted, never more than were asked for, and brings none in.
pub proof fn lemma_deletions_account(registry: Seq<u64>, ids: Seq<u64>, deleted: Seq<bool>)
    requires
        ids.len() == deleted.len(),
    ensures
        after_deletions(registry, ids, deleted).1 <= ids.len(),
        after_deletions(registry, ids, deleted).0.len() + after_deletions(registry, ids, deleted).1
            == registry.len(),
        forall|x: u64| #[trigger]
            after_deletions(registry, ids, deleted).0.contains(x) ==> registry.contains(x),
        forall|x: u64|
            !ids.contains(x) ==> (#[trigger] after_deletions(registry, ids, deleted).0.contains(x)
                <==> registry.contains(x)),
    decreases ids.len(),
{
    if ids.len() > 0 {
        let front = ids.drop_last();
        let (reg, count) = after_deletions(registry, front, deleted.drop_last());
        lemma_deletions_account(registry, front, deleted.drop_last());
        lemma_without_first_keeps(reg, ids.last());
        assert(ids.contains(ids.last())) by {
            assert(ids[ids.len() - 1] == ids.last());
        }
        assert forall|x: u64| !ids.contains(x) implies !front.contains(x) by {
            if front.contains(x) {
                let k = choose|k: int| 0 <= k < front.len() && front[k] == x;
                assert(ids[k] == x);
            }
        }
    }
}

/// Where the identifiers asked for are all different, the count is the
/// number of those that the registry held at the start and the backend
/// deleted: an identifier that the registry does not hold, or that the
/// backend did not delete, counts for nothing.
pub proof fn lemma_deletions_count(registry: Seq<u64>, ids: Seq<u64>, deleted: Seq<bool>)
    requires
        ids.len() == deleted.len(),
        ids.no_duplicates(),
    ensures
        after_deletions(registry, ids, deleted).1 == tracked_and_deleted(registry, ids, deleted),
    decreases ids.len(),
{
    if ids.len() > 0 {
        let front = ids.drop_last();
        assert(front.no_duplicates()) by {
            assert forall|a: int, b: int| 0 <= a < front.len() && 0 <= b < front.len() && a
                != b implies front[a] != front[b] by {
                assert(front[a] == ids[a] && front[b] == ids[b]);
            }
        }
        lemma_deletions_count(registry, front, deleted.drop_last());
        lemma_deletions_account(registry, front, deleted.drop_last());
        assert(!front.contains(ids.last())) by {
            if front.contains(ids.last()) {
                let k = choose|k: int| 0 <= k < front.len() && front[k] == ids.last();
                assert(ids[k] == ids[ids.len() - 1]);
            }
        }
    }
}

/// A batch gives no more identifiers than units are submitted, a rule gives
/// no more than its own units, and a rule that is not valid gives none.
pub proof fn lemma_batch_bounds(
    rules: Seq<FilterRule>,
    outcomes: Seq<Seq<Result<u64, SubmitFailed>>>,
)
    requires
        outcomes_fit(rules, outcomes),
    ensures
        batch_accepted(outcomes).len() <= batch_unit_count(rules),
        forall|i: int|
            0 <= i < rules.len() ==> accepted(#[trigger] outcomes[i]).len() <= rule_unit_count(
                &rules[i],
            ),
        forall|i: int|
            0 <= i < rules.len() && !rules[i].is_valid() ==> accepted(#[trigger] outcomes[i]).len()
                == 0,
        forall|i: int|
            0 <= i < rules.len() ==> accepted(#[trigger] outcomes[i]).len() <= batch_accepted(
                outcomes,
            ).len(),
    decreases rules.len(),
{
    if rules.len() > 0 {
        let r = rules.drop_last();
        let o = outcomes.drop_last();
        assert forall|i: int| 0 <= i < r.len() implies (#[trigger] o[i]).len() == rule_unit_count(
            &r[i],
        ) by {
            assert(o[i] == outcomes[i]);
            assert(r[i] == rules[i]);
        }
        lemma_batch_bounds(r, o);
        let n = rules.len() - 1;
        lemma_accepted_len(outcomes[n]);
        assert forall|i: int| 0 <= i < rules.len() implies accepted(#[trigger] outcomes[i]).len()
            <= rule_unit_count(&rules[i]) && accepted(outcomes[i]).len() <= batch_accepted(
            outcomes,
        ).len() by {
            lemma_accepted_len(outcomes[i]);
            if i < n {
                assert(o[i] == outcomes[i]);
                assert(r[i] == rules[i]);
            }
        }
    }
}

/// Where the backend refuses every unit of a batch, no identifier comes
/// back and the batch fails.
pub proof fn lemma_batch_all_refused(outcomes: Seq<Seq<Result<u64, SubmitFailed>>>)
    requires
        forall|i: int, k: int|
            0 <= i < outcomes.len() && 0 <= k < outcomes[i].len() ==> (
            #[trigger] outcomes[i][k]) is Err,
    ensures
        batch_accepted(outcomes).len() == 0,
        batch_result(outcomes) == Err::<Seq<u64>, EngineError>(EngineError::BatchAddFailed),
    decreases outcomes.len(),
{
    if outcomes.len() > 0 {
        let o = outcomes.drop_last();
        assert forall|i: int, k: int| 0 <= i < o.len() && 0 <= k < o[i].len() implies (
        #[trigger] o[i][k]) is Err by {
            assert(o[i] == outcomes[i]);
        }
        lemma_batch_all_refused(o);
        let last = outcomes.last();
        assert forall|k: int| 0 <= k < last.len() implies (#[trigger] last[k]) is Err by {
            assert(outcomes[outcomes.len() - 1][k] is Err);
        }
        lemma_all_refused(last);
    }
}

/// Where the backend accepts every unit of a batch, as many identifiers
/// come back as units are submitted: one for each layer of each valid rule.
pub proof fn lemma_batch_all_accepted(
    rules: Seq<FilterRule>,
    outcomes: Seq<Seq<Result<u64, SubmitFailed>>>,
)
    requires
        outcomes_fit(rules, outcomes),
        forall|i: int, k: int|
            0 <= i < outcomes.len() && 0 <= k < outcomes[i].len() ==> (
            #[trigger] outcomes[i][k]) is Ok,
    ensures
        batch_accepted(outcomes).len() == batch_unit_count(rules),
        forall|i: int|
            0 <= i < rules.len() ==> accepted(#[trigger] outcomes[i]).len() == rule_unit_count(
                &rules[i],
            ),
    decreases rules.len(),
{
    if rules.len() > 0 {
        let r = rules.drop_last();
        let o = outcomes.drop_last();
        assert forall|i: int| 0 <= i < r.len() implies (#[trigger] o[i]).len() == rule_unit_count(
            &r[i],
        ) by {
            assert(o[i] == outcomes[i]);
            assert(r[i] == rules[i]);
        }
        assert forall|i: int, k: int| 0 <= i < o.len() && 0 <= k < o[i].len() implies (
        #[trigger] o[i][k]) is Ok by {
            assert(o[i] == outcomes[i]);
        }
        lemma_batch_all_accepted(r, o);
        assert forall|i: int| 0 <= i < rules.len() implies accepted(#[trigger] outcomes[i]).len()
            == rule_unit_count(&rules[i]) by {
            let one = outcomes[i];
            assert forall|k: int| 0 <= k < one.len() implies (#[trigger] one[k]) is Ok by {
                assert(outcomes[i][k] is Ok);
            }
            lemma_all_accepted(one);
        }
    }
}


/// The number of units of a batch that reach the backend: those of its
/// valid rules that ask for nothing that is not supported.
pub open spec fn submitted_unit_count(rules: Seq<FilterRule>) -> nat
    decreases rules.len(),
{
    if rules.len() == 0 {
        0
    } else {
        submitted_unit_count(rules.drop_last()) + (if rule_not_supported(&rules.last()).len() > 0 {
            0nat
        } else {
            rule_unit_count(&rules.last())
        })
    }
}

/// Over the simulation, the units of one rule that reach the backend are
/// all accepted and get the next identifiers of the counter, one after the
/// other; a rule whose units do not reach it leaves the counter alone.
pub proof fn lemma_sim_rule(
    session: &SessionHandle,
    rule: &FilterRule,
    states: Seq<SimBackend>,
    outcomes: Seq<Result<u64, SubmitFailed>>,
    k: int,
)
    requires
        rule_submitted(session, rule, states, outcomes),
        states[0].next_id + outcomes.len() < u64::MAX,
        0 <= k <= outcomes.len(),
    ensures
        rule_not_supported(rule).len() > 0 ==> states[k].next_id == states[0].next_id && accepted(
            outcomes.take(k),
        ).len() == 0,
        rule_not_supported(rule).len() == 0 ==> states[k].next_id == states[0].next_id + k
            && accepted(outcomes.take(k)).len() == k && (forall|j: int|
            0 <= j < k ==> #[trigger] accepted(outcomes.take(k))[j] == states[0].next_id + j),
    decreases k,
{
    if k > 0 {
        lemma_sim_rule(session, rule, states, outcomes, k - 1);
        let front = outcomes.take(k - 1);
        let now = outcomes.take(k);
        assert(now.drop_last() =~= front);
        assert(now.last() == outcomes[k - 1]);
        assert(unit_submitted(
            &states[k - 1],
            session,
            rule,
            rule_layers(rule)[k - 1],
            outcomes[k - 1],
            &states[k],
        ));
        if rule_not_supported(rule).len() == 0 {
            assert forall|j: int| 0 <= j < k implies #[trigger] accepted(now)[j]
                == states[0].next_id + j by {
                if j < k - 1 {
                    assert(accepted(now)[j] == accepted(front)[j]);
                }
            }
        }
    } else {
        assert(outcomes.take(0) =~= Seq::<Result<u64, SubmitFailed>>::empty());
    }
}

/// Over the simulation, every unit of a batch that reaches the backend is
/// accepted, and the identifiers that come back are the next ones of the
/// counter, one after the other: none comes back twice, and none that an
/// earlier batch was given.
pub proof fn lemma_sim_batch(
    session: &SessionHandle,
    rules: Seq<FilterRule>,
    start: SimBackend,
    outcomes: Seq<Seq<Result<u64, SubmitFailed>>>,
    end: SimBackend,
)
    requires
        batch_submitted(session, rules, start, outcomes, end),
        start.next_id + batch_unit_count(rules) < u64::MAX,
    ensures
        submitted_unit_count(rules) <= batch_unit_count(rules),
        batch_accepted(outcomes).len() == submitted_unit_count(rules),
        end.next_id == start.next_id + submitted_unit_count(rules),
        forall|j: int|
            0 <= j < batch_accepted(outcomes).len() ==> #[trigger] batch_accepted(outcomes)[j]
                == start.next_id + j,
    decreases rules.len(),
{
    if rules.len() > 0 {
        let states = choose|states: Seq<SimBackend>|
            {
                &&& #[trigger] rule_submitted(session, &rules.last(), states, outcomes.last())
                &&& batch_submitted(
                    session,
                    rules.drop_last(),
                    start,
                    outcomes.drop_last(),
                    states[0],
                )
                &&& states.last() == end
            };
        let last = outcomes.last();
        lemma_sim_batch(session, rules.drop_last(), start, outcomes.drop_last(), states[0]);
        lemma_sim_rule(session, &rules.last(), states, last, last.len() as int);
        assert(last.take(last.len() as int) =~= last);
        let front = batch_accepted(outcomes.drop_last());
        assert forall|j: int| 0 <= j < batch_accepted(outcomes).len() implies #[trigger] batch_accepted(
            outcomes,
        )[j] == start.next_id + j by {
            if j < front.len() {
                assert(batch_accepted(outcomes)[j] == front[j]);
            } else {
                assert(batch_accepted(outcomes)[j] == accepted(last)[j - front.len()]);
            }
        }
    }
}

} // verus!
