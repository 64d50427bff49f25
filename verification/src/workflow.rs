//! Workflow data model — content identifiers, resources, instructions,
//! tasks — and the graph builder that compiles a workflow into a layered,
//! batched schedule plus a resource manifest.

use vstd::prelude::*;
use crate::scheduler::ExecutionGraph;
use crate::scheduler::SchedulerError;

verus! {

/// Whether an identifier occurs in a list of identifiers.
pub open spec fn cid_in(cids: Seq<Seq<u8>>, k: Seq<u8>) -> bool {
    exists|i: int| 0 <= i < cids.len() && cids[i] == k
}

/// The identifiers a list of identifier values holds.
pub open spec fn cids_view(s: Seq<Cid>) -> Seq<Seq<u8>> {
    s.map_values(|c: Cid| c@)
}

/// A copy of a byte string with the same content.
pub fn clone_bytes(v: &Vec<u8>) -> (r: Vec<u8>)
    ensures
        r@ == v@,
{
    let mut out: Vec<u8> = Vec::new();
    let mut i: usize = 0;
    while i < v.len()
        invariant
            i <= v.len(),
            out@ == v@.take(i as int),
        decreases v.len() - i,
    {
        out.push(v[i]);
        i = i + 1;
        proof {
            assert(v@.take(i as int) == v@.take(i as int - 1).push(v@[i as int - 1]));
        }
    }
    proof {
        assert(out@ == v@);
    }
    out
}

/// A content identifier: the canonical hash of an instruction's encoding,
/// held in its raw byte form. Two identifiers name the same computation
/// exactly when their bytes are equal.
#[derive(Debug, PartialEq, Eq, Hash)]
pub struct Cid {
    /// The identifier's canonical byte form.
    pub bytes: Vec<u8>,
}

impl View for Cid {
    type V = Seq<u8>;

    open spec fn view(&self) -> Seq<u8> {
        self.bytes@
    }
}

impl Cid {
    /// A copy of the identifier with the same bytes.
    pub fn clone_cid(&self) -> (r: Cid)
        ensures
            r@ == self@,
    {
        Cid { bytes: clone_bytes(&self.bytes) }
    }

    /// Whether two identifiers hold the same bytes.
    pub fn eq_cid(&self, other: &Cid) -> (r: bool)
        ensures
            r == (self@ == other@),
    {
        if self.bytes.len() != other.bytes.len() {
            proof {
                assert(self@ != other@);
            }
            return false;
        }
        let mut i: usize = 0;
        while i < self.bytes.len()
            invariant
                i <= self.bytes.len(),
                self.bytes@.len() == other.bytes@.len(),
                forall|j: int| 0 <= j < i ==> self.bytes@[j] == other.bytes@[j],
            decreases self.bytes.len() - i,
        {
            if self.bytes[i] != other.bytes[i] {
                proof {
                    assert(self@[i as int] != other@[i as int]);
                }
                return false;
            }
            i = i + 1;
        }
        proof {
            assert(self@ =~= other@);
        }
        true
    }
}

/// An external byte blob that instructions rely on (for example a module to
/// execute), identified by its URI; equality of resources is equality of URIs.
#[derive(Debug, PartialEq, Eq, Hash)]
pub struct Resource {
    /// The resource's URI.
    pub uri: String,
}

impl View for Resource {
    type V = Seq<char>;

    open spec fn view(&self) -> Seq<char> {
        self.uri@
    }
}

/// The mathematical content of an [`Instruction`].
pub struct InstructionModel {
    /// The instruction's identifier.
    pub cid: Seq<u8>,
    /// The URI of the resource the instruction runs against.
    pub resource: Seq<char>,
    /// The identifiers of the instructions whose outputs it consumes.
    pub deps: Seq<Seq<u8>>,
}

/// An immutable description of one unit of work, named by its content
/// identifier. Its inputs either are literal (not represented here) or
/// reference another instruction of the same workflow by content identifier;
/// those references are the instruction's dependencies.
#[derive(Debug, PartialEq, Eq)]
pub struct Instruction {
    /// The instruction's content identifier.
    pub cid: Cid,
    /// The resource the instruction runs against.
    pub resource: Resource,
    /// Identifiers of the instructions whose outputs this one consumes.
    pub deps: Vec<Cid>,
}

impl View for Instruction {
    type V = InstructionModel;

    open spec fn view(&self) -> InstructionModel {
        InstructionModel {
            cid: self.cid@,
            resource: self.resource@,
            deps: self.deps@.map_values(|c: Cid| c@),
        }
    }
}

/// An authoring-level unit inside a workflow: an instruction together with
/// its run configuration.
#[derive(Debug, PartialEq, Eq)]
pub struct Task {
    /// The task's instruction.
    pub instruction: Instruction,
}

impl View for Task {
    type V = InstructionModel;

    open spec fn view(&self) -> InstructionModel {
        self.instruction@
    }
}

/// An ordered sequence of tasks whose induced dependency graph is meant to be
/// acyclic; [`Workflow::graph`] checks that and rejects anything else.
#[derive(Debug, PartialEq, Eq)]
pub struct Workflow {
    /// The tasks, in authoring order.
    pub tasks: Vec<Task>,
}

impl View for Workflow {
    type V = Seq<InstructionModel>;

    open spec fn view(&self) -> Seq<InstructionModel> {
        self.tasks@.map_values(|t: Task| t@)
    }
}

/// Whether a pointer list holds a given identifier.
pub(crate) fn contains_cid(pointers: &Vec<Cid>, key: &Cid) -> (r: bool)
    ensures
        r == cid_in(cids_view(pointers@), key@),
{
    let mut i: usize = 0;
    while i < pointers.len()
        invariant
            i <= pointers@.len(),
            forall|j: int| 0 <= j < i ==> pointers@[j]@ != key@,
        decreases pointers@.len() - i,
    {
        if pointers[i].eq_cid(key) {
            proof {
                assert(cids_view(pointers@)[i as int] == key@);
            }
            return true;
        }
        i = i + 1;
    }
    proof {
        assert(forall|j: int|
            0 <= j < pointers@.len() ==> cids_view(pointers@)[j] == #[trigger] pointers@[j]@);
    }
    false
}

/// One node of the execution DAG, named by the content identifier of its
/// instruction.
#[derive(Debug, PartialEq, Eq)]
pub struct Vertex {
    /// The identifier of the instruction this node stands for.
    pub name: Cid,
}

impl View for Vertex {
    type V = Seq<u8>;

    open spec fn view(&self) -> Seq<u8> {
        self.name@
    }
}

/// The content of a list of instructions.
pub open spec fn instr_view(s: Seq<Instruction>) -> Seq<InstructionModel> {
    s.map_values(|t: Instruction| t@)
}

/// The content of a list of tasks.
pub open spec fn tasks_view(s: Seq<Task>) -> Seq<InstructionModel> {
    s.map_values(|t: Task| t@)
}

/// The identifiers of a list of instructions, in order.
pub open spec fn instr_cids(ts: Seq<InstructionModel>) -> Seq<Seq<u8>> {
    ts.map_values(|t: InstructionModel| t.cid)
}

/// The names a batch of vertices carries, in order.
pub open spec fn batch_names(b: Seq<Vertex>) -> Seq<Seq<u8>> {
    b.map_values(|v: Vertex| v@)
}

/// The names a whole schedule carries, batch by batch.
pub open spec fn schedule_names(s: Seq<Vec<Vertex>>) -> Seq<Seq<Seq<u8>>> {
    s.map_values(|b: Vec<Vertex>| batch_names(b@))
}

/// Whether every dependency of an instruction is already placed.
pub open spec fn ready(t: InstructionModel, placed: Seq<Seq<u8>>) -> bool {
    forall|i: int| 0 <= i < t.deps.len() ==> cid_in(placed, #[trigger] t.deps[i])
}

/// Partition the unplaced instructions into those that are ready under the
/// placed identifiers and those that are not, keeping order.
pub open spec fn split_ready(rem: Seq<InstructionModel>, placed: Seq<Seq<u8>>) -> (
    Seq<InstructionModel>,
    Seq<InstructionModel>,
)
    decreases rem.len(),
{
    if rem.len() == 0 {
        (Seq::empty(), Seq::empty())
    } else {
        let (b, r) = split_ready(rem.drop_last(), placed);
        if ready(rem.last(), placed) {
            (b.push(rem.last()), r)
        } else {
            (b, r.push(rem.last()))
        }
    }
}

/// A partition keeps every instruction: the two sides' lengths add up.
pub proof fn lemma_split_ready_len(rem: Seq<InstructionModel>, placed: Seq<Seq<u8>>)
    ensures
        split_ready(rem, placed).0.len() + split_ready(rem, placed).1.len() == rem.len(),
    decreases rem.len(),
{
    if rem.len() > 0 {
        lemma_split_ready_len(rem.drop_last(), placed);
    }
}

/// Everything the ready side of a partition holds is an instruction of the
/// partitioned list whose dependencies are all among the placed identifiers.
pub proof fn lemma_split_ready_members(rem: Seq<InstructionModel>, placed: Seq<Seq<u8>>)
    ensures
        forall|j: int|
            0 <= j < split_ready(rem, placed).0.len() ==> ready(
                #[trigger] split_ready(rem, placed).0[j],
                placed,
            ),
        forall|j: int|
            0 <= j < split_ready(rem, placed).0.len() ==> exists|i: int|
                0 <= i < rem.len() && rem[i] == #[trigger] split_ready(rem, placed).0[j],
        forall|j: int|
            0 <= j < split_ready(rem, placed).1.len() ==> exists|i: int|
                0 <= i < rem.len() && rem[i] == #[trigger] split_ready(rem, placed).1[j],
    decreases rem.len(),
{
    if rem.len() > 0 {
        lemma_split_ready_members(rem.drop_last(), placed);
        let b = split_ready(rem, placed).0;
        let bp = split_ready(rem.drop_last(), placed).0;
        assert forall|j: int| 0 <= j < b.len() implies exists|i: int|
            0 <= i < rem.len() && rem[i] == #[trigger] b[j] by {
            if ready(rem.last(), placed) && j == b.len() - 1 {
                assert(rem[rem.len() - 1] == b[j]);
            } else {
                assert(bp[j] == b[j]);
                let i0 = choose|i: int| 0 <= i < rem.drop_last().len() && rem.drop_last()[i]
                    == bp[j];
                assert(rem[i0] == b[j]);
            }
        }
        let rr = split_ready(rem, placed).1;
        let rp = split_ready(rem.drop_last(), placed).1;
        assert forall|j: int| 0 <= j < rr.len() implies exists|i: int|
            0 <= i < rem.len() && rem[i] == #[trigger] rr[j] by {
            if !ready(rem.last(), placed) && j == rr.len() - 1 {
                assert(rem[rem.len() - 1] == rr[j]);
            } else {
                assert(rp[j] == rr[j]);
                let i0 = choose|i: int| 0 <= i < rem.drop_last().len() && rem.drop_last()[i]
                    == rp[j];
                assert(rem[i0] == rr[j]);
            }
        }
    }
}

/// The identifiers the first `bi` batches of a schedule carry, concatenated.
pub open spec fn batches_cids_up_to(sn: Seq<Seq<Seq<u8>>>, bi: int) -> Seq<Seq<u8>>
    decreases bi,
{
    if bi <= 0 {
        Seq::empty()
    } else {
        batches_cids_up_to(sn, bi - 1) + sn[bi - 1]
    }
}

/// Peeling the head batch off the prefix concatenation.
proof fn lemma_up_to_cons(c0: Seq<Seq<u8>>, ls: Seq<Seq<Seq<u8>>>, bi: int)
    requires
        1 <= bi <= ls.len() + 1,
    ensures
        batches_cids_up_to(seq![c0] + ls, bi) == c0 + batches_cids_up_to(ls, bi - 1),
    decreases bi,
{
    if bi == 1 {
        assert((seq![c0] + ls)[0] == c0);
        assert(batches_cids_up_to(seq![c0] + ls, 0) =~= Seq::<Seq<u8>>::empty());
        assert(batches_cids_up_to(ls, 0) =~= Seq::<Seq<u8>>::empty());
        assert(batches_cids_up_to(seq![c0] + ls, 1) =~= c0 + batches_cids_up_to(ls, 0));
    } else {
        lemma_up_to_cons(c0, ls, bi - 1);
        assert((seq![c0] + ls)[bi - 1] == ls[bi - 2]);
        assert(batches_cids_up_to(seq![c0] + ls, bi) =~= c0 + batches_cids_up_to(ls, bi - 1));
    }
}

/// Every batch of a layered schedule holds only instructions of the
/// partitioned list whose dependencies all lie among the identifiers placed
/// beforehand or carried by strictly earlier batches.
proof fn lemma_layers_batches_ready(rem: Seq<InstructionModel>, placed: Seq<Seq<u8>>)
    requires
        layers(rem, placed) is Some,
    ensures
        forall|bi: int, c: Seq<u8>|
            0 <= bi < layers(rem, placed)->Some_0.len() && #[trigger] cid_in(
                layers(rem, placed)->Some_0[bi],
                c,
            ) ==> exists|i: int|
                0 <= i < rem.len() && (#[trigger] rem[i]).cid == c && ready(
                    rem[i],
                    placed + batches_cids_up_to(layers(rem, placed)->Some_0, bi),
                ),
    decreases rem.len(),
{
    if rem.len() > 0 {
        let b = split_ready(rem, placed).0;
        let r = split_ready(rem, placed).1;
        let placed2 = placed + instr_cids(b);
        let ls = layers(r, placed2)->Some_0;
        let full = layers(rem, placed)->Some_0;
        lemma_split_ready_len(rem, placed);
        lemma_split_ready_members(rem, placed);
        lemma_layers_batches_ready(r, placed2);
        assert(full == seq![instr_cids(b)] + ls);
        assert forall|bi: int, c: Seq<u8>|
            0 <= bi < full.len() && #[trigger] cid_in(full[bi], c) implies exists|i: int|
            0 <= i < rem.len() && (#[trigger] rem[i]).cid == c && ready(
                rem[i],
                placed + batches_cids_up_to(full, bi),
            ) by {
            if bi == 0 {
                assert(full[0] == instr_cids(b));
                let jj = choose|j: int| 0 <= j < instr_cids(b).len() && instr_cids(b)[j] == c;
                assert(instr_cids(b)[jj] == b[jj].cid);
                assert(ready(b[jj], placed));
                let i0 = choose|i: int| 0 <= i < rem.len() && rem[i] == b[jj];
                assert(placed + batches_cids_up_to(full, 0) =~= placed);
                assert(rem[i0].cid == c && ready(rem[i0], placed + batches_cids_up_to(full, 0)));
            } else {
                assert(full[bi] == ls[bi - 1]);
                assert(cid_in(ls[bi - 1], c));
                let i1 = choose|i: int|
                    0 <= i < r.len() && r[i].cid == c && ready(
                        r[i],
                        placed2 + batches_cids_up_to(ls, bi - 1),
                    );
                lemma_up_to_cons(instr_cids(b), ls, bi);
                assert(placed + batches_cids_up_to(full, bi) =~= placed2 + batches_cids_up_to(
                    ls,
                    bi - 1,
                ));
                let i0 = choose|i: int| 0 <= i < rem.len() && rem[i] == r[i1];
                assert(rem[i0].cid == c && ready(rem[i0], placed + batches_cids_up_to(full, bi)));
            }
        }
    }
}

/// Schedule invariant: every batch of a built schedule holds only
/// instructions whose dependencies all lie in strictly earlier batches, so
/// for every dependency edge the dependency's batch comes first.
pub proof fn lemma_schedule_respects_deps(ts: Seq<InstructionModel>)
    requires
        spec_schedule(ts) is Some,
    ensures
        forall|bi: int, c: Seq<u8>|
            0 <= bi < spec_schedule(ts)->Some_0.len() && #[trigger] cid_in(
                spec_schedule(ts)->Some_0[bi],
                c,
            ) ==> exists|i: int|
                0 <= i < ts.len() && (#[trigger] ts[i]).cid == c && ready(
                    ts[i],
                    batches_cids_up_to(spec_schedule(ts)->Some_0, bi),
                ),
{
    let sn = spec_schedule(ts)->Some_0;
    lemma_layers_batches_ready(ts, Seq::empty());
    assert forall|bi: int, c: Seq<u8>| 0 <= bi < sn.len() && #[trigger] cid_in(sn[bi], c)
        implies exists|i: int|
        0 <= i < ts.len() && (#[trigger] ts[i]).cid == c && ready(
            ts[i],
            batches_cids_up_to(sn, bi),
        ) by {
        let i0 = choose|i: int|
            0 <= i < ts.len() && ts[i].cid == c && ready(
                ts[i],
                Seq::empty() + batches_cids_up_to(sn, bi),
            );
        assert(Seq::empty() + batches_cids_up_to(sn, bi) =~= batches_cids_up_to(sn, bi));
        assert(ts[i0].cid == c && ready(ts[i0], batches_cids_up_to(sn, bi)));
    }
}

/// A partition keeps every instruction's identifier: both sides together
/// carry exactly the identifiers of the partitioned list, with multiplicity.
proof fn lemma_split_ready_multiset(rem: Seq<InstructionModel>, placed: Seq<Seq<u8>>)
    ensures
        instr_cids(split_ready(rem, placed).0).to_multiset().add(
            instr_cids(split_ready(rem, placed).1).to_multiset(),
        ) =~= instr_cids(rem).to_multiset(),
    decreases rem.len(),
{
    broadcast use vstd::seq_lib::group_to_multiset_ensures;
    broadcast use vstd::multiset::group_multiset_axioms;

    if rem.len() > 0 {
        lemma_split_ready_multiset(rem.drop_last(), placed);
        let b = split_ready(rem, placed).0;
        let r = split_ready(rem, placed).1;
        let bp = split_ready(rem.drop_last(), placed).0;
        let rp = split_ready(rem.drop_last(), placed).1;
        assert(instr_cids(rem) =~= instr_cids(rem.drop_last()).push(rem.last().cid));
        if ready(rem.last(), placed) {
            assert(instr_cids(b) =~= instr_cids(bp).push(rem.last().cid));
            assert(instr_cids(r) =~= instr_cids(rp));
        } else {
            assert(instr_cids(b) =~= instr_cids(bp));
            assert(instr_cids(r) =~= instr_cids(rp).push(rem.last().cid));
        }
    }
}

/// The batches of a layered schedule, all together, carry exactly the
/// identifiers of the instructions that were laid out, with multiplicity.
proof fn lemma_layers_multiset(rem: Seq<InstructionModel>, placed: Seq<Seq<u8>>)
    requires
        layers(rem, placed) is Some,
    ensures
        ({
            let ls = layers(rem, placed)->Some_0;
            batches_cids_up_to(ls, ls.len() as int).to_multiset() =~= instr_cids(
                rem,
            ).to_multiset()
        }),
    decreases rem.len(),
{
    broadcast use vstd::seq_lib::group_to_multiset_ensures;
    broadcast use vstd::multiset::group_multiset_axioms;

    if rem.len() == 0 {
        assert(instr_cids(rem) =~= Seq::<Seq<u8>>::empty());
        let ls = layers(rem, placed)->Some_0;
        assert(batches_cids_up_to(ls, 0) =~= Seq::<Seq<u8>>::empty());
    } else {
        let b = split_ready(rem, placed).0;
        let r = split_ready(rem, placed).1;
        let placed2 = placed + instr_cids(b);
        let ls2 = layers(r, placed2)->Some_0;
        let full = layers(rem, placed)->Some_0;
        lemma_split_ready_len(rem, placed);
        lemma_layers_multiset(r, placed2);
        lemma_split_ready_multiset(rem, placed);
        assert(full == seq![instr_cids(b)] + ls2);
        lemma_up_to_cons(instr_cids(b), ls2, full.len() as int);
        vstd::seq_lib::lemma_multiset_commutative(
            instr_cids(b),
            batches_cids_up_to(ls2, ls2.len() as int),
        );
    }
}

/// The schedule partitions the workflow: its batches, all together, carry
/// exactly the workflow's instruction identifiers, with multiplicity — no
/// instruction is lost or laid out twice.
pub proof fn lemma_schedule_partitions(ts: Seq<InstructionModel>)
    requires
        spec_schedule(ts) is Some,
    ensures
        ({
            let sn = spec_schedule(ts)->Some_0;
            batches_cids_up_to(sn, sn.len() as int).to_multiset() =~= instr_cids(
                ts,
            ).to_multiset()
        }),
{
    lemma_layers_multiset(ts, Seq::empty());
}

/// Batch 0 of a built schedule holds only instructions with no dependencies
/// at all: every identifier it carries names a dependency-free instruction
/// of the workflow.
pub proof fn lemma_first_batch_dependency_free(ts: Seq<InstructionModel>)
    requires
        spec_schedule(ts) is Some,
    ensures
        spec_schedule(ts)->Some_0.len() > 0,
        forall|c: Seq<u8>|
            cid_in(spec_schedule(ts)->Some_0[0], c) ==> exists|i: int|
                0 <= i < ts.len() && ts[i].cid == c && ts[i].deps.len() == 0,
{
    let b = split_ready(ts, Seq::empty()).0;
    lemma_split_ready_members(ts, Seq::empty());
    let sn = spec_schedule(ts)->Some_0;
    assert(sn[0] == instr_cids(b));
    assert forall|c: Seq<u8>| cid_in(sn[0], c) implies exists|i: int|
        0 <= i < ts.len() && ts[i].cid == c && ts[i].deps.len() == 0 by {
        let jj = choose|j: int| 0 <= j < sn[0].len() && sn[0][j] == c;
        assert(instr_cids(b)[jj] == b[jj].cid);
        assert(ready(b[jj], Seq::empty()));
        if b[jj].deps.len() > 0 {
            assert(cid_in(Seq::empty(), b[jj].deps[0]));
            assert(false);
        }
        let i0 = choose|i: int| 0 <= i < ts.len() && ts[i] == b[jj];
        assert(ts[i0].cid == c && ts[i0].deps.len() == 0);
    }
}

/// The layered schedule of the unplaced instructions, as batches of
/// identifiers: each round takes every instruction whose dependencies are all
/// placed; a round that takes nothing while instructions remain means a cycle
/// or a dangling reference, and yields `None`.
pub open spec fn layers(rem: Seq<InstructionModel>, placed: Seq<Seq<u8>>) -> Option<
    Seq<Seq<Seq<u8>>>,
>
    decreases rem.len(),
    via layers_decreases
{
    if rem.len() == 0 {
        Some(Seq::empty())
    } else {
        let (b, r) = split_ready(rem, placed);
        if b.len() == 0 {
            None
        } else {
            match layers(r, placed + instr_cids(b)) {
                Some(ls) => Some(seq![instr_cids(b)] + ls),
                None => None,
            }
        }
    }
}

#[via_fn]
proof fn layers_decreases(rem: Seq<InstructionModel>, placed: Seq<Seq<u8>>) {
    lemma_split_ready_len(rem, placed);
}

/// What the graph builder yields for a workflow: `None` where the workflow is
/// empty, a reference targets an absent identifier, or the dependency graph
/// has a cycle; otherwise the layered schedule, a deterministic function of
/// the workflow.
pub open spec fn spec_schedule(ts: Seq<InstructionModel>) -> Option<Seq<Seq<Seq<u8>>>> {
    if ts.len() == 0 {
        None
    } else {
        layers(ts, Seq::empty())
    }
}

/// Whether a URI occurs in a list of URIs.
pub open spec fn uri_in(us: Seq<Seq<char>>, u: Seq<char>) -> bool {
    exists|i: int| 0 <= i < us.len() && us[i] == u
}

/// The content of a list of resources.
pub open spec fn resources_view(s: Seq<Resource>) -> Seq<Seq<char>> {
    s.map_values(|r: Resource| r@)
}

/// The de-duplicated resource URIs a workflow's instructions reach, in first
/// occurrence order.
pub open spec fn resources_of(ts: Seq<InstructionModel>) -> Seq<Seq<char>>
    decreases ts.len(),
{
    if ts.len() == 0 {
        Seq::empty()
    } else {
        let rest = resources_of(ts.drop_last());
        if uri_in(rest, ts.last().resource) {
            rest
        } else {
            rest.push(ts.last().resource)
        }
    }
}

impl Instruction {
    /// A copy with the same content.
    pub fn clone_instruction(&self) -> (r: Instruction)
        ensures
            r@ == self@,
    {
        let mut deps: Vec<Cid> = Vec::new();
        let mut i: usize = 0;
        while i < self.deps.len()
            invariant
                i <= self.deps@.len(),
                deps@.len() == i,
                forall|j: int| 0 <= j < i ==> deps@[j]@ == self.deps@[j]@,
            decreases self.deps@.len() - i,
        {
            deps.push(self.deps[i].clone_cid());
            i = i + 1;
        }
        proof {
            assert forall|j: int| 0 <= j < deps@.len() implies cids_view(deps@)[j] == cids_view(
                self.deps@,
            )[j] by {
                assert(cids_view(deps@)[j] == deps@[j]@);
                assert(cids_view(self.deps@)[j] == self.deps@[j]@);
            }
            assert(cids_view(deps@) =~= cids_view(self.deps@));
        }
        let r = Instruction {
            cid: self.cid.clone_cid(),
            resource: Resource { uri: self.resource.uri.clone() },
            deps,
        };
        proof {
            assert(r@.deps =~= self@.deps);
        }
        r
    }
}

/// Whether every dependency of an instruction occurs among the placed
/// identifiers.
fn instruction_ready(t: &Instruction, placed: &Vec<Cid>) -> (r: bool)
    ensures
        r == ready(t@, cids_view(placed@)),
{
    let mut i: usize = 0;
    while i < t.deps.len()
        invariant
            i <= t.deps@.len(),
            forall|j: int| 0 <= j < i ==> cid_in(cids_view(placed@), #[trigger] t@.deps[j]),
        decreases t.deps@.len() - i,
    {
        proof {
            assert(t@.deps[i as int] == t.deps@[i as int]@);
        }
        if !contains_cid(placed, &t.deps[i]) {
            proof {
                assert(!cid_in(cids_view(placed@), t@.deps[i as int]));
            }
            return false;
        }
        i = i + 1;
    }
    true
}

/// Partition the unplaced instructions into the ready ones and the rest,
/// keeping order on both sides.
fn split_ready_batch(remaining: &Vec<Instruction>, placed: &Vec<Cid>) -> (res: (
    Vec<Instruction>,
    Vec<Instruction>,
))
    ensures
        instr_view(res.0@) == split_ready(instr_view(remaining@), cids_view(placed@)).0,
        instr_view(res.1@) == split_ready(instr_view(remaining@), cids_view(placed@)).1,
{
    let mut batch: Vec<Instruction> = Vec::new();
    let mut rest: Vec<Instruction> = Vec::new();
    let mut i: usize = 0;
    while i < remaining.len()
        invariant
            i <= remaining@.len(),
            instr_view(batch@) == split_ready(
                instr_view(remaining@.take(i as int)),
                cids_view(placed@),
            ).0,
            instr_view(rest@) == split_ready(
                instr_view(remaining@.take(i as int)),
                cids_view(placed@),
            ).1,
        decreases remaining@.len() - i,
    {
        let ghost pre_batch = batch@;
        let ghost pre_rest = rest@;
        if instruction_ready(&remaining[i], placed) {
            batch.push(remaining[i].clone_instruction());
        } else {
            rest.push(remaining[i].clone_instruction());
        }
        i = i + 1;
        proof {
            let tv = instr_view(remaining@.take(i as int));
            assert(tv.drop_last() =~= instr_view(remaining@.take(i as int - 1)));
            assert(tv.last() == remaining@[i as int - 1]@);
            assert(instr_view(batch@) =~= split_ready(tv, cids_view(placed@)).0);
            assert(instr_view(rest@) =~= split_ready(tv, cids_view(placed@)).1);
        }
    }
    proof {
        assert(remaining@.take(remaining@.len() as int) =~= remaining@);
    }
    (batch, rest)
}

/// Append the identifiers of a batch to the placed identifiers, in order.
fn extend_placed(placed: &mut Vec<Cid>, batch: &Vec<Instruction>)
    ensures
        cids_view(final(placed)@) == cids_view(old(placed)@) + instr_cids(instr_view(batch@)),
{
    let ghost n0 = placed@.len();
    let mut i: usize = 0;
    while i < batch.len()
        invariant
            i <= batch@.len(),
            placed@.len() == n0 + i,
            forall|j: int| 0 <= j < n0 ==> placed@[j] == old(placed)@[j],
            forall|j: int| 0 <= j < i ==> placed@[n0 + j]@ == batch@[j]@.cid,
        decreases batch@.len() - i,
    {
        placed.push(batch[i].cid.clone_cid());
        i = i + 1;
    }
    proof {
        let lhs = cids_view(placed@);
        let rhs = cids_view(old(placed)@) + instr_cids(instr_view(batch@));
        assert forall|j: int| 0 <= j < lhs.len() implies lhs[j] == rhs[j] by {
            assert(lhs[j] == placed@[j]@);
            if j < n0 {
                assert(rhs[j] == cids_view(old(placed)@)[j]);
                assert(cids_view(old(placed)@)[j] == old(placed)@[j]@);
            } else {
                assert(rhs[j] == instr_cids(instr_view(batch@))[j - n0]);
                assert(instr_cids(instr_view(batch@))[j - n0] == instr_view(batch@)[j - n0].cid);
                assert(instr_view(batch@)[j - n0] == batch@[j - n0]@);
                assert(placed@[j]@ == batch@[j - n0]@.cid);
            }
        }
        assert(lhs =~= rhs);
    }
}

/// The vertices of a batch, one per instruction, named by its identifier.
fn batch_vertices(batch: &Vec<Instruction>) -> (vs: Vec<Vertex>)
    ensures
        batch_names(vs@) == instr_cids(instr_view(batch@)),
{
    let mut vs: Vec<Vertex> = Vec::new();
    let mut i: usize = 0;
    while i < batch.len()
        invariant
            i <= batch@.len(),
            vs@.len() == i,
            forall|j: int| 0 <= j < i ==> vs@[j]@ == batch@[j]@.cid,
        decreases batch@.len() - i,
    {
        vs.push(Vertex { name: batch[i].cid.clone_cid() });
        i = i + 1;
    }
    proof {
        let lhs = batch_names(vs@);
        let rhs = instr_cids(instr_view(batch@));
        assert forall|j: int| 0 <= j < lhs.len() implies lhs[j] == rhs[j] by {
            assert(lhs[j] == vs@[j]@);
            assert(rhs[j] == instr_view(batch@)[j].cid);
            assert(instr_view(batch@)[j] == batch@[j]@);
        }
        assert(lhs =~= rhs);
    }
    vs
}

impl Workflow {
    /// Compile the workflow into a layered schedule plus the de-duplicated
    /// list of resources its instructions reach.
    ///
    /// The schedule partitions the workflow by a layered topological sort:
    /// batch 0 holds every instruction with no unsatisfied dependency, and
    /// each later batch holds those whose dependencies all lie in earlier
    /// batches, keeping authoring order inside a batch — a deterministic
    /// function of the workflow. An empty workflow, a reference to an absent
    /// identifier and a cyclic dependency graph are rejected.
    pub fn graph(&self) -> (r: Result<ExecutionGraph, SchedulerError>)
        ensures
            r matches Ok(g) ==> spec_schedule(self@) == Some(schedule_names(g.schedule@))
                && resources_view(g.resources@) == resources_of(self@),
            r matches Err(e) ==> e == SchedulerError::InvalidWorkflow && spec_schedule(self@)
                is None,
    {
        if self.tasks.len() == 0 {
            return Err(SchedulerError::InvalidWorkflow);
        }
        let mut remaining: Vec<Instruction> = Vec::new();
        let mut i: usize = 0;
        while i < self.tasks.len()
            invariant
                i <= self.tasks@.len(),
                remaining@.len() == i,
                forall|j: int| 0 <= j < i ==> remaining@[j]@ == self.tasks@[j]@,
            decreases self.tasks@.len() - i,
        {
            remaining.push(self.tasks[i].instruction.clone_instruction());
            i = i + 1;
        }
        proof {
            assert forall|j: int| 0 <= j < remaining@.len() implies instr_view(remaining@)[j]
                == self@[j] by {
                assert(instr_view(remaining@)[j] == remaining@[j]@);
                assert(self@[j] == self.tasks@[j]@);
            }
            assert(instr_view(remaining@) =~= self@);
        }
        let mut placed: Vec<Cid> = Vec::new();
        let mut schedule: Vec<Vec<Vertex>> = Vec::new();
        proof {
            assert(cids_view(placed@) =~= Seq::<Seq<u8>>::empty());
            let l0 = layers(self@, Seq::<Seq<u8>>::empty());
            if l0 is Some {
                assert(schedule_names(schedule@) + l0->Some_0 =~= l0->Some_0);
            }
        }
        while remaining.len() > 0
            invariant
                self@.len() > 0,
                layers(instr_view(remaining@), cids_view(placed@)) matches Some(ls) ==> layers(
                    self@,
                    Seq::<Seq<u8>>::empty(),
                ) == Some(schedule_names(schedule@) + ls),
                layers(instr_view(remaining@), cids_view(placed@)) is None ==> layers(
                    self@,
                    Seq::<Seq<u8>>::empty(),
                ) is None,
            decreases remaining@.len(),
        {
            let (batch, rest) = split_ready_batch(&remaining, &placed);
            if batch.len() == 0 {
                proof {
                    assert(instr_view(batch@) =~= Seq::<InstructionModel>::empty());
                    assert(layers(instr_view(remaining@), cids_view(placed@)) is None);
                }
                return Err(SchedulerError::InvalidWorkflow);
            }
            let ghost rem_old = instr_view(remaining@);
            let ghost placed_old = cids_view(placed@);
            let ghost sched_old = schedule_names(schedule@);
            let vs = batch_vertices(&batch);
            extend_placed(&mut placed, &batch);
            schedule.push(vs);
            proof {
                lemma_split_ready_len(rem_old, placed_old);
            }
            remaining = rest;
            proof {
                let b = split_ready(rem_old, placed_old).0;
                let rseq = split_ready(rem_old, placed_old).1;
                assert(instr_view(remaining@) == rseq);
                assert(cids_view(placed@) =~= placed_old + instr_cids(b));
                assert forall|j: int| 0 <= j < schedule@.len() implies schedule_names(
                    schedule@,
                )[j] == sched_old.push(instr_cids(b))[j] by {
                    assert(schedule_names(schedule@)[j] == batch_names(schedule@[j]@));
                }
                assert(schedule_names(schedule@) =~= sched_old.push(instr_cids(b)));
                let cur_new = layers(rseq, placed_old + instr_cids(b));
                if cur_new is Some {
                    let ls2 = cur_new->Some_0;
                    assert(layers(rem_old, placed_old) == Some(seq![instr_cids(b)] + ls2));
                    assert(sched_old + (seq![instr_cids(b)] + ls2) =~= sched_old.push(
                        instr_cids(b),
                    ) + ls2);
                } else {
                    assert(layers(rem_old, placed_old) is None);
                }
            }
        }
        proof {
            assert(instr_view(remaining@) =~= Seq::<InstructionModel>::empty());
            let full = layers(self@, Seq::<Seq<u8>>::empty());
            assert(full == Some(
                schedule_names(schedule@) + Seq::<Seq<Seq<u8>>>::empty(),
            ));
            assert(schedule_names(schedule@) + Seq::<Seq<Seq<u8>>>::empty() =~= schedule_names(
                schedule@,
            ));
        }
        let mut resources: Vec<Resource> = Vec::new();
        let mut k: usize = 0;
        while k < self.tasks.len()
            invariant
                k <= self.tasks@.len(),
                resources_view(resources@) == resources_of(self@.take(k as int)),
            decreases self.tasks@.len() - k,
        {
            let ghost pre = resources@;
            if !contains_resource(&resources, &self.tasks[k].instruction.resource) {
                resources.push(
                    Resource { uri: self.tasks[k].instruction.resource.uri.clone() },
                );
                proof {
                    assert(resources_view(resources@) =~= resources_view(pre).push(
                        self.tasks@[k as int]@.resource,
                    ));
                }
            }
            k = k + 1;
            proof {
                assert(self@.take(k as int).drop_last() =~= self@.take(k as int - 1));
                assert(self@.take(k as int).last() == self@[k as int - 1]);
                assert(self@[k as int - 1] == self.tasks@[k as int - 1]@);
                assert(resources_view(resources@) =~= resources_of(self@.take(k as int)));
            }
        }
        proof {
            assert(self@.take(self@.len() as int) =~= self@);
        }
        Ok(ExecutionGraph { schedule, resources })
    }
}

/// Whether a resource list holds a given URI already.
fn contains_resource(rs: &Vec<Resource>, r: &Resource) -> (found: bool)
    ensures
        found == uri_in(resources_view(rs@), r@),
{
    let mut i: usize = 0;
    while i < rs.len()
        invariant
            i <= rs@.len(),
            forall|j: int| 0 <= j < i ==> rs@[j]@ != r@,
        decreases rs@.len() - i,
    {
        if rs[i].uri == r.uri {
            proof {
                assert(resources_view(rs@)[i as int] == r@);
            }
            return true;
        }
        i = i + 1;
    }
    proof {
        assert(forall|j: int|
            0 <= j < rs@.len() ==> resources_view(rs@)[j] == #[trigger] rs@[j]@);
    }
    false
}

} // verus!
