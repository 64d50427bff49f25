//! Scheduler for a series of tasks: what has already run, what is left to
//! run, and the in-memory results recovered from the receipt store.

use vstd::prelude::*;
use crate::db::MemoryDb;
use crate::db::receipts_view;
use crate::db::spec_find;
use crate::linkmap::LinkMap;
use crate::receipt::InstructionResultModel;
use crate::receipt::ReceiptModel;
use crate::workflow::Cid;
use crate::workflow::Resource;
use crate::workflow::Vertex;
use crate::workflow::Workflow;
use crate::workflow::InstructionModel;
use crate::workflow::batch_names;
use crate::workflow::cid_in;
use crate::workflow::cids_view;
use crate::workflow::schedule_names;
use crate::workflow::spec_schedule;

verus! {

/// Why building or scheduling a workflow failed.
#[derive(Debug, PartialEq, Eq, Structural)]
pub enum SchedulerError {
    /// The workflow is empty, a reference targets an absent identifier, or
    /// the dependency graph has a cycle.
    InvalidWorkflow,
    /// Retrieval of the workflow's resources could not complete.
    FetchFailed,
}

/// A batched execution graph together with the set of resources its tasks
/// rely on.
#[derive(Debug, PartialEq, Eq)]
pub struct ExecutionGraph {
    /// The built-up schedule of batches.
    pub schedule: Vec<Vec<Vertex>>,
    /// The resources to fetch before executing the schedule, each once.
    pub resources: Vec<Resource>,
}

/// An ordered mapping type of the `indexmap` crate. The scheduler carries a
/// value of it — the fetched resource bytes, keyed by resource — through to
/// its output without reading it, so the type is declared and nothing is
/// assumed of its operations.
#[verifier::external_type_specification]
#[verifier::external_body]
#[verifier::reject_recursive_types(K)]
#[verifier::reject_recursive_types(V)]
#[verifier::reject_recursive_types(S)]
pub struct ExIndexMap<K, V, S>(indexmap::IndexMap<K, V, S>);

/// The link map a list of found receipts folds into: each receipt's output,
/// keyed by its instruction identifier, later receipts winning.
pub open spec fn lm_of(found: Seq<ReceiptModel>) -> Map<Seq<u8>, InstructionResultModel>
    decreases found.len(),
{
    if found.len() == 0 {
        Map::empty()
    } else {
        lm_of(found.drop_last()).insert(found.last().instruction, found.last().output)
    }
}

/// The reverse walk over the schedule's last `i` prefix batches (indices
/// `0 .. i`, visited from `i - 1` downwards): the first batch, from the back,
/// whose receipts are all found breaks with its index, a mark that it was
/// fully satisfied, and the link map folded from what was found; a batch
/// with some but not all receipts breaks as partially satisfied; a batch
/// with no receipts, or with more receipts than instructions, is passed
/// over.
pub open spec fn walk(sn: Seq<Seq<Seq<u8>>>, store: Seq<ReceiptModel>, i: nat) -> Option<
    (nat, bool, Map<Seq<u8>, InstructionResultModel>),
>
    decreases i,
{
    if i == 0 {
        None
    } else {
        let idx = (i - 1) as nat;
        let cids = sn[idx as int];
        let found = spec_find(store, cids);
        if found.len() == cids.len() {
            Some((idx, true, lm_of(found)))
        } else if 0 < found.len() < cids.len() {
            Some((idx, false, lm_of(found)))
        } else {
            walk(sn, store, idx)
        }
    }
}

/// Every receipt the store lookup yields is keyed by a queried identifier.
proof fn lemma_spec_find_members(rs: Seq<ReceiptModel>, cids: Seq<Seq<u8>>)
    ensures
        forall|j: int|
            0 <= j < spec_find(rs, cids).len() ==> cid_in(
                cids,
                #[trigger] spec_find(rs, cids)[j].instruction,
            ),
    decreases rs.len(),
{
    if rs.len() > 0 {
        lemma_spec_find_members(rs.drop_last(), cids);
    }
}

/// A fold of receipts whose identifiers all lie in a set of identifiers
/// yields a map whose domain lies in that set.
proof fn lemma_lm_of_dom(found: Seq<ReceiptModel>, cids: Seq<Seq<u8>>)
    requires
        forall|j: int| 0 <= j < found.len() ==> cid_in(cids, #[trigger] found[j].instruction),
    ensures
        forall|k: Seq<u8>| lm_of(found).dom().contains(k) ==> cid_in(cids, k),
    decreases found.len(),
{
    if found.len() > 0 {
        assert(forall|j: int| 0 <= j < found.len() - 1 ==> found.drop_last()[j] == found[j]);
        lemma_lm_of_dom(found.drop_last(), cids);
    }
}

/// Where the walk breaks, the breaking batch lies among the visited ones and
/// the link map's domain lies within that batch's identifiers.
pub proof fn lemma_walk_props(sn: Seq<Seq<Seq<u8>>>, store: Seq<ReceiptModel>, i: nat)
    ensures
        walk(sn, store, i) matches Some((b, f, lm)) ==> b < i && (forall|k: Seq<u8>|
            lm.dom().contains(k) ==> cid_in(sn[b as int], k)),
    decreases i,
{
    if i > 0 {
        let idx = (i - 1) as nat;
        let cids = sn[idx as int];
        let found = spec_find(store, cids);
        lemma_spec_find_members(store, cids);
        lemma_lm_of_dom(found, cids);
        lemma_walk_props(sn, store, idx);
    }
}

/// What ran before the resume point, as batches of names; an absent `ran`
/// counts as nothing.
pub open spec fn ran_names(s: TaskScheduler) -> Seq<Seq<Seq<u8>>> {
    match s.ran {
        Some(rv) => schedule_names(rv@),
        None => Seq::empty(),
    }
}

/// What a correctly scheduled plan looks like for a workflow and a store:
/// the full schedule is the workflow's; the reverse walk decides the split
/// point — one past the breaking batch where it was fully satisfied, at it
/// where only partially — `ran` and `run` are the prefix and suffix there,
/// the link map holds what the breaking batch's lookup found, and the resume
/// step is the split index exactly when it is interior.
pub open spec fn plan_matches(
    w: Seq<InstructionModel>,
    store: Seq<ReceiptModel>,
    s: TaskScheduler,
) -> bool {
    &&& spec_schedule(w) is Some
    &&& {
        let sn = spec_schedule(w)->Some_0;
        match walk(sn, store, sn.len() as nat) {
            Some((b, full, lm)) => {
                let idx: int = if full {
                    b as int + 1
                } else {
                    b as int
                };
                &&& s.ran matches Some(rv) && schedule_names(rv@) == sn.take(idx)
                &&& schedule_names(s.run@) == sn.skip(idx)
                &&& s.linkmap@ == lm
                &&& (s.resume_step is Some <==> 0 < idx < sn.len())
                &&& (s.resume_step matches Some(st) ==> st == idx)
            },
            None => {
                &&& s.ran is None
                &&& schedule_names(s.run@) == sn
                &&& s.linkmap@ == Map::<Seq<u8>, InstructionResultModel>::empty()
                &&& s.resume_step is None
            },
        }
    }
}

/// Initialization is deterministic: the plan is a function of the workflow
/// and the receipt store's state, so two plans built over the same workflow
/// and the same store contents agree on what ran, what is left to run, the
/// recovered results and the resume step.
pub proof fn lemma_init_deterministic(
    w: Seq<InstructionModel>,
    store: Seq<ReceiptModel>,
    s1: TaskScheduler,
    s2: TaskScheduler,
)
    requires
        plan_matches(w, store, s1),
        plan_matches(w, store, s2),
    ensures
        ran_names(s1) == ran_names(s2),
        schedule_names(s1.run@) == schedule_names(s2.run@),
        s1.linkmap@ == s2.linkmap@,
        s1.resume_step == s2.resume_step,
{
    let sn = spec_schedule(w)->Some_0;
    match walk(sn, store, sn.len() as nat) {
        Some((b, full, lm)) => {
            assert(s1.resume_step is Some <==> s2.resume_step is Some);
            if s1.resume_step is Some {
                assert(s1.resume_step->Some_0 == s2.resume_step->Some_0);
            }
        },
        None => {},
    }
}

/// Scheduler for a series of tasks, including what has run, what is left to
/// run, and the data tracking resources and in-memory results.
#[derive(Debug)]
pub struct TaskScheduler {
    /// In-memory map of instruction results recovered from the store.
    pub linkmap: LinkMap,
    /// The schedule prefix that has already been satisfied, if the walk
    /// broke anywhere.
    pub ran: Option<Vec<Vec<Vertex>>>,
    /// The schedule suffix that is left to run.
    pub run: Vec<Vec<Vertex>>,
    /// The batch index to resume from, where one is interior.
    pub resume_step: Option<usize>,
    /// The fetched bytes of the resources the workflow relies on, retrieved
    /// ahead of time and carried along for executing the schedule.
    pub resources: indexmap::IndexMap<Resource, Vec<u8>>,
}

impl TaskScheduler {
    /// Initialize the task scheduler for a workflow, given the receipt store
    /// and the already-fetched resource bytes (`None` where the retrieval
    /// could not complete).
    ///
    /// The schedule is walked from the last batch to the first, asking the
    /// store for each batch's receipts, and breaks at the deepest cache
    /// boundary: a fully receipted batch means every batch up to and
    /// including it is satisfied, while a partially receipted one must
    /// itself be retried. The schedule splits there into `ran` and `run`,
    /// and the link map carries what the breaking batch's lookup found.
    pub fn init(
        workflow: Workflow,
        store: &MemoryDb,
        fetched: Option<indexmap::IndexMap<Resource, Vec<u8>>>,
    ) -> (r: Result<TaskScheduler, SchedulerError>)
        ensures
            spec_schedule(workflow@) is None ==> r == Err::<TaskScheduler, SchedulerError>(
                SchedulerError::InvalidWorkflow,
            ),
            spec_schedule(workflow@) is Some && fetched is None ==> r == Err::<
                TaskScheduler,
                SchedulerError,
            >(SchedulerError::FetchFailed),
            spec_schedule(workflow@) is Some && fetched is Some ==> r is Ok,
            r matches Ok(s) ==> plan_matches(workflow@, store@, s) && s.resources == fetched
                ->Some_0,
            r matches Ok(s) ==> s.linkmap.wf() && s.linkmap.spec_len() == s.linkmap@.dom().len(),
            r matches Ok(s) ==> ran_names(s) + schedule_names(s.run@) == spec_schedule(
                workflow@,
            )->Some_0,
            r matches Ok(s) ==> (s.resume_step is None <==> (ran_names(s).len() == 0
                || s.run@.len() == 0)),
            r matches Ok(s) ==> (walk(
                spec_schedule(workflow@)->Some_0,
                store@,
                spec_schedule(workflow@)->Some_0.len() as nat,
            ) matches Some((b, f, lm)) ==> !f ==> s.run@.len() > 0 && schedule_names(s.run@)[0]
                == spec_schedule(workflow@)->Some_0[b as int] && (forall|k: Seq<u8>|
                s.linkmap@.dom().contains(k) ==> cid_in(schedule_names(s.run@)[0], k))),
            r matches Ok(s) ==> (walk(
                spec_schedule(workflow@)->Some_0,
                store@,
                spec_schedule(workflow@)->Some_0.len() as nat,
            ) matches Some((b, f, lm)) ==> f ==> ran_names(s).len() == b + 1 && ran_names(s)[
                b as int] == spec_schedule(workflow@)->Some_0[b as int] && (forall|k: Seq<u8>|
                s.linkmap@.dom().contains(k) ==> cid_in(ran_names(s)[b as int], k))),
    {
        let graph = match workflow.graph() {
            Ok(g) => g,
            Err(e) => {
                return Err(e);
            },
        };
        let fetched_map = match fetched {
            Some(m) => m,
            None => {
                return Err(SchedulerError::FetchFailed);
            },
        };
        let mut schedule = graph.schedule;
        let schedule_length = schedule.len();
        let ghost sn = schedule_names(schedule@);
        proof {
            assert(spec_schedule(workflow@) == Some(sn));
            assert(sn.len() == schedule_length);
            lemma_walk_props(sn, store@, schedule_length as nat);
        }
        let mut outcome: Option<(usize, LinkMap)> = None;
        let mut idx: usize = schedule.len();
        while idx > 0
            invariant_except_break
                outcome is None,
                idx <= schedule@.len(),
                schedule@.len() == schedule_length,
                sn == schedule_names(schedule@),
                walk(sn, store@, schedule_length as nat) == walk(sn, store@, idx as nat),
            ensures
                schedule@.len() == schedule_length,
                sn == schedule_names(schedule@),
                match walk(sn, store@, schedule_length as nat) {
                    Some((b, full, lm)) => outcome matches Some(oc) && (oc.0 as int == if full {
                        b as int + 1
                    } else {
                        b as int
                    }) && oc.1@ == lm && oc.1.wf(),
                    None => outcome is None,
                },
            decreases idx,
        {
            idx = idx - 1;
            let batch = &schedule[idx];
            let mut pointers: Vec<Cid> = Vec::new();
            let mut j: usize = 0;
            while j < batch.len()
                invariant
                    j <= batch@.len(),
                    pointers@.len() == j,
                    forall|t: int| 0 <= t < j ==> pointers@[t]@ == batch@[t]@,
                decreases batch@.len() - j,
            {
                pointers.push(batch[j].name.clone_cid());
                j = j + 1;
            }
            proof {
                assert forall|t: int| 0 <= t < pointers@.len() implies cids_view(pointers@)[t]
                    == batch_names(batch@)[t] by {
                    assert(cids_view(pointers@)[t] == pointers@[t]@);
                    assert(batch_names(batch@)[t] == batch@[t]@);
                }
                assert(cids_view(pointers@) =~= batch_names(batch@));
                assert(batch_names(batch@) == sn[idx as int]);
            }
            let found = store.find_instructions(&pointers);
            let mut lm = LinkMap::new();
            let mut t: usize = 0;
            proof {
                assert(receipts_view(found@).take(0int) =~= Seq::<ReceiptModel>::empty());
            }
            while t < found.len()
                invariant
                    t <= found@.len(),
                    lm.wf(),
                    lm@ == lm_of(receipts_view(found@).take(t as int)),
                decreases found@.len() - t,
            {
                lm.insert(found[t].instruction_cid().clone_cid(), found[t].output_as_arg());
                t = t + 1;
                proof {
                    let fv = receipts_view(found@);
                    assert(fv.take(t as int).drop_last() =~= fv.take(t as int - 1));
                    assert(fv.take(t as int).last() == fv[t as int - 1]);
                    assert(fv[t as int - 1] == found@[t as int - 1]@);
                }
            }
            proof {
                assert(receipts_view(found@).take(found@.len() as int) =~= receipts_view(
                    found@,
                ));
            }
            if found.len() == batch.len() {
                proof {
                    assert(walk(sn, store@, idx as nat + 1) == Some(
                        (idx as nat, true, lm_of(receipts_view(found@))),
                    ));
                }
                outcome = Some((idx + 1, lm));
                break;
            } else if found.len() > 0 && found.len() < batch.len() {
                proof {
                    assert(walk(sn, store@, idx as nat + 1) == Some(
                        (idx as nat, false, lm_of(receipts_view(found@))),
                    ));
                }
                outcome = Some((idx, lm));
                break;
            }
            proof {
                assert(walk(sn, store@, idx as nat + 1) == walk(sn, store@, idx as nat));
            }
        }
        match outcome {
            Some((split, lm)) => {
                let ghost full_sched = schedule@;
                proof {
                    assert(split <= schedule_length);
                    lm.lemma_len_is_key_count();
                }
                let pivot = schedule.split_off(split);
                let step: Option<usize> = if split >= schedule_length || split == 0 {
                    None
                } else {
                    Some(split)
                };
                proof {
                    assert forall|q: int| 0 <= q < schedule@.len() implies schedule_names(
                        schedule@,
                    )[q] == sn.take(split as int)[q] by {
                        assert(schedule_names(schedule@)[q] == batch_names(schedule@[q]@));
                        assert(schedule@[q] == full_sched[q]);
                        assert(sn[q] == batch_names(full_sched[q]@));
                    }
                    assert(schedule_names(schedule@) =~= sn.take(split as int));
                    assert forall|q: int| 0 <= q < pivot@.len() implies schedule_names(pivot@)[q]
                        == sn.skip(split as int)[q] by {
                        assert(schedule_names(pivot@)[q] == batch_names(pivot@[q]@));
                        assert(pivot@[q] == full_sched[q + split]);
                        assert(sn[q + split] == batch_names(full_sched[q + split]@));
                    }
                    assert(schedule_names(pivot@) =~= sn.skip(split as int));
                    assert(sn.take(split as int) + sn.skip(split as int) =~= sn);
                }
                Ok(TaskScheduler {
                    linkmap: lm,
                    ran: Some(schedule),
                    run: pivot,
                    resume_step: step,
                    resources: fetched_map,
                })
            },
            None => {
                let linkmap = LinkMap::new();
                proof {
                    assert(Seq::<Seq<Seq<u8>>>::empty() + schedule_names(schedule@) =~= sn);
                    linkmap.lemma_len_is_key_count();
                }
                Ok(TaskScheduler {
                    linkmap,
                    ran: None,
                    run: schedule,
                    resume_step: None,
                    resources: fetched_map,
                })
            },
        }
    }
}

} // verus!
