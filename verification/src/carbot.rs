//! What a carbot decides between the replies of a language model: the requirement
//! values its tree shares, whether it may start, the rounds of a planner, and the steps
//! of a tool caller.
use vstd::prelude::*;

use crate::agent::{
    json_object_text, message, ChatMessageView, MessageRole, TOOL_PROMPT, messages_view, pairs_view, planner_messages, planner_messages_spec, requirements_view,
    tool_messages, tool_messages_spec, ChatMessage, NodeInfo, NodeInfoView, PlanInfo,
    Requirement, RequirementView, ToolCallInfo,
};
use crate::index::{ascend_by, has_key_by, inserted_by, lemma_lookup_inserted, lookup_by, name_key, NameIndex, Named};
use crate::skills::{inserted_all, last_named, lemma_lookup_inserted_all};
use crate::text::{lemma_text_lt_irreflexive, owned, text_eq, text_lt, texts_view};
use crate::tooling::{ToolSchema, ToolSchemaView};

verus! {

/// No key occurs twice in `ps`.
pub open spec fn pairs_distinct(ps: Seq<(Seq<char>, Seq<char>)>) -> bool {
    forall|i: int, j: int| 0 <= i < j < ps.len() ==> (#[trigger] ps[i]).0 != (#[trigger] ps[j]).0
}

/// Some pair of `ps` has key `k`.
pub open spec fn has_pair_key(ps: Seq<(Seq<char>, Seq<char>)>, k: Seq<char>) -> bool {
    exists|i: int| 0 <= i < ps.len() && (#[trigger] ps[i]).0 == k
}

/// The index of a pair of `ps` with key `k` (the only one, where keys are distinct).
pub open spec fn pair_index(ps: Seq<(Seq<char>, Seq<char>)>, k: Seq<char>) -> int {
    choose|i: int| 0 <= i < ps.len() && (#[trigger] ps[i]).0 == k
}

/// The map from key to value of the pairs `ps`.
pub open spec fn pairs_map(ps: Seq<(Seq<char>, Seq<char>)>) -> Map<Seq<char>, Seq<char>> {
    Map::new(|k: Seq<char>| has_pair_key(ps, k), |k: Seq<char>| ps[pair_index(ps, k)].1)
}

/// Where keys are distinct, each pair is what the map gives for its key.
pub proof fn lemma_pairs_lookup(ps: Seq<(Seq<char>, Seq<char>)>, i: int)
    requires
        pairs_distinct(ps),
        0 <= i < ps.len(),
    ensures
        pairs_map(ps).dom().contains(ps[i].0),
        pairs_map(ps)[ps[i].0] == ps[i].1,
{
    assert(has_pair_key(ps, ps[i].0));
    let j = pair_index(ps, ps[i].0);
    if j != i {
        if i < j {
            assert(ps[i].0 != ps[j].0);
        } else {
            assert(ps[j].0 != ps[i].0);
        }
    }
}

/// No pairs make the empty map, and some pairs make a map that is not empty.
pub proof fn lemma_pairs_empty(ps: Seq<(Seq<char>, Seq<char>)>)
    ensures
        (ps.len() == 0) == (pairs_map(ps) == Map::<Seq<char>, Seq<char>>::empty()),
{
    if ps.len() == 0 {
        assert(pairs_map(ps) =~= Map::<Seq<char>, Seq<char>>::empty());
    } else {
        assert(has_pair_key(ps, ps[0].0));
        assert(pairs_map(ps).dom().contains(ps[0].0));
    }
}

/// Replacing the value of a key present in `ps`.
pub proof fn lemma_pairs_update(ps: Seq<(Seq<char>, Seq<char>)>, i: int, v: (Seq<char>, Seq<char>))
    requires
        pairs_distinct(ps),
        0 <= i < ps.len(),
        v.0 == ps[i].0,
    ensures
        pairs_distinct(ps.update(i, v)),
        pairs_map(ps.update(i, v)) == pairs_map(ps).insert(v.0, v.1),
{
    let qs = ps.update(i, v);
    assert forall|a: int, b: int| 0 <= a < b < qs.len() implies (#[trigger] qs[a]).0 != (
    #[trigger] qs[b]).0 by {
        assert(ps[a].0 != ps[b].0);
    }
    assert forall|k: Seq<char>| #[trigger] has_pair_key(qs, k) == (has_pair_key(ps, k) || k == v.0) by {
        if has_pair_key(ps, k) {
            let j = choose|j: int| 0 <= j < ps.len() && (#[trigger] ps[j]).0 == k;
            assert(qs[j].0 == k);
        }
        if has_pair_key(qs, k) {
            let j = choose|j: int| 0 <= j < qs.len() && (#[trigger] qs[j]).0 == k;
            assert(ps[j].0 == k);
        }
        if k == v.0 {
            assert(qs[i].0 == k);
        }
    }
    assert forall|k: Seq<char>| #[trigger] pairs_map(qs).dom().contains(k) implies pairs_map(qs)[k]
        == pairs_map(ps).insert(v.0, v.1)[k] by {
        let j = pair_index(qs, k);
        if k == v.0 {
            lemma_pairs_lookup(qs, i);
        } else {
            assert(qs[j] == ps[j]);
            lemma_pairs_lookup(ps, j);
            lemma_pairs_lookup(qs, j);
        }
    }
    assert(pairs_map(qs) =~= pairs_map(ps).insert(v.0, v.1));
}

/// Adding a pair whose key is not in `ps`.
pub proof fn lemma_pairs_push(ps: Seq<(Seq<char>, Seq<char>)>, v: (Seq<char>, Seq<char>))
    requires
        pairs_distinct(ps),
        !has_pair_key(ps, v.0),
    ensures
        pairs_distinct(ps.push(v)),
        pairs_map(ps.push(v)) == pairs_map(ps).insert(v.0, v.1),
{
    let qs = ps.push(v);
    let n = ps.len() as int;
    assert forall|a: int, b: int| 0 <= a < b < qs.len() implies (#[trigger] qs[a]).0 != (
    #[trigger] qs[b]).0 by {
        assert(qs[a] == ps[a]);
        if b < n {
            assert(qs[b] == ps[b]);
        } else {
            assert(!(0 <= a < ps.len() && ps[a].0 == v.0));
        }
    }
    assert forall|k: Seq<char>| #[trigger] has_pair_key(qs, k) == (has_pair_key(ps, k) || k == v.0) by {
        if has_pair_key(ps, k) {
            let j = choose|j: int| 0 <= j < ps.len() && (#[trigger] ps[j]).0 == k;
            assert(qs[j].0 == k);
        }
        if has_pair_key(qs, k) {
            let j = choose|j: int| 0 <= j < qs.len() && (#[trigger] qs[j]).0 == k;
            if j < n {
                assert(ps[j].0 == k);
            }
        }
        if k == v.0 {
            assert(qs[n].0 == k);
        }
    }
    assert forall|k: Seq<char>| #[trigger] pairs_map(qs).dom().contains(k) implies pairs_map(qs)[k]
        == pairs_map(ps).insert(v.0, v.1)[k] by {
        let j = pair_index(qs, k);
        if k == v.0 {
            lemma_pairs_lookup(qs, n);
        } else {
            assert(j < n);
            assert(qs[j] == ps[j]);
            lemma_pairs_lookup(ps, j);
            lemma_pairs_lookup(qs, j);
        }
    }
    assert(pairs_map(qs) =~= pairs_map(ps).insert(v.0, v.1));
}

/// The keys that `reqs` ask for.
pub open spec fn requirement_keys(reqs: Seq<RequirementView>) -> Set<Seq<char>> {
    Set::new(|k: Seq<char>| exists|i: int| 0 <= i < reqs.len() && (#[trigger] reqs[i]).key == k)
}

/// The values by key after each of `sets` is set, in order, on top of `m`.
pub open spec fn set_all(m: Map<Seq<char>, Seq<char>>, sets: Seq<(Seq<char>, Seq<char>)>) -> Map<
    Seq<char>,
    Seq<char>,
>
    decreases sets.len(),
{
    if sets.len() == 0 {
        m
    } else {
        set_all(m, sets.drop_last()).insert(sets.last().0, sets.last().1)
    }
}

/// The value last set for `key` among `sets`, if one is.
pub open spec fn last_set(sets: Seq<(Seq<char>, Seq<char>)>, key: Seq<char>) -> Option<Seq<char>>
    decreases sets.len(),
{
    if sets.len() == 0 {
        None
    } else if sets.last().0 == key {
        Some(sets.last().1)
    } else {
        last_set(sets.drop_last(), key)
    }
}

/// A loaded value is the one last set: after a run of sets on a store, whichever carbot
/// of the tree made them, loading `key` gives the value last set for it, or what the
/// store held before when none was.
pub proof fn lemma_loaded_after_sets(
    m: Map<Seq<char>, Seq<char>>,
    sets: Seq<(Seq<char>, Seq<char>)>,
    key: Seq<char>,
)
    ensures
        set_all(m, sets).dom().contains(key) == (last_set(sets, key) is Some || m.dom().contains(
            key,
        )),
        set_all(m, sets).dom().contains(key) ==> set_all(m, sets)[key] == match last_set(
            sets,
            key,
        ) {
            Some(v) => v,
            None => m[key],
        },
    decreases sets.len(),
{
    if sets.len() > 0 {
        lemma_loaded_after_sets(m, sets.drop_last(), key);
    }
}

/// Requirement values by key. Every carbot of a tree reads and writes the values held
/// by its root, so one store serves the whole tree.
pub struct RequirementStore {
    entries: Vec<(String, String)>,
}

impl View for RequirementStore {
    type V = Map<Seq<char>, Seq<char>>;

    closed spec fn view(&self) -> Map<Seq<char>, Seq<char>> {
        pairs_map(self.pairs())
    }
}

impl RequirementStore {
    /// The values as pairs, in the order their keys were first set.
    pub closed spec fn pairs(&self) -> Seq<(Seq<char>, Seq<char>)> {
        pairs_view(self.entries@)
    }

    pub closed spec fn wf(&self) -> bool {
        pairs_distinct(self.pairs())
    }

    /// No value.
    pub fn new() -> (r: Self)
        ensures
            r.wf(),
            r@ == Map::<Seq<char>, Seq<char>>::empty(),
            r.pairs() == Seq::<(Seq<char>, Seq<char>)>::empty(),
    {
        let r = RequirementStore { entries: Vec::new() };
        proof {
            assert(r.pairs() =~= Seq::<(Seq<char>, Seq<char>)>::empty());
            lemma_pairs_empty(r.pairs());
        }
        r
    }

    /// The pairs, keys distinct, that make the store.
    pub fn entries(&self) -> (r: &Vec<(String, String)>)
        requires
            self.wf(),
        ensures
            pairs_view(r@) == self.pairs(),
            pairs_distinct(pairs_view(r@)),
            pairs_map(pairs_view(r@)) == self@,
    {
        &self.entries
    }

    /// Whether no value is held.
    pub fn is_empty(&self) -> (r: bool)
        ensures
            r == (self@ == Map::<Seq<char>, Seq<char>>::empty()),
    {
        proof {
            lemma_pairs_empty(self.pairs());
        }
        self.entries.len() == 0
    }

    fn position(&self, key: &str) -> (r: Option<usize>)
        requires
            self.wf(),
        ensures
            match r {
                Some(i) => i < self.pairs().len() && self.pairs()[i as int].0 == key@,
                None => !has_pair_key(self.pairs(), key@),
            },
    {
        let mut i: usize = 0;
        while i < self.entries.len()
            invariant
                i <= self.entries@.len(),
                forall|k: int| 0 <= k < i ==> (#[trigger] self.entries@[k]).0@ != key@,
            decreases self.entries.len() - i,
        {
            if text_eq(self.entries[i].0.as_str(), key) {
                return Some(i);
            }
            i = i + 1;
        }
        proof {
            if has_pair_key(self.pairs(), key@) {
                let k = choose|k: int| 0 <= k < self.pairs().len() && (#[trigger] self.pairs()[k]).0
                    == key@;
                assert(self.entries@[k].0@ == key@);
            }
        }
        None
    }

    /// The value of `key`, if one was set.
    pub fn load_requirement_value(&self, key: &str) -> (r: Option<String>)
        requires
            self.wf(),
        ensures
            r is Some <==> self@.dom().contains(key@),
            r matches Some(v) ==> v@ == self@[key@],
    {
        match self.position(key) {
            Some(i) => {
                proof {
                    lemma_pairs_lookup(self.pairs(), i as int);
                }
                Some(self.entries[i].1.clone())
            },
            None => None,
        }
    }

    /// Sets the value of `key`, replacing the one it had.
    pub fn set_requirement_value(&mut self, key: &str, value: String)
        requires
            old(self).wf(),
        ensures
            final(self).wf(),
            final(self)@ == old(self)@.insert(key@, value@),
    {
        let ghost ps = self.pairs();
        let entry = (owned(key), value);
        match self.position(key) {
            Some(i) => {
                self.entries.set(i, entry);
                proof {
                    assert(self.pairs() =~= ps.update(i as int, (key@, value@)));
                    lemma_pairs_update(ps, i as int, (key@, value@));
                }
            },
            None => {
                self.entries.push(entry);
                proof {
                    assert(self.pairs() =~= ps.push((key@, value@)));
                    lemma_pairs_push(ps, (key@, value@));
                }
            },
        }
    }

    /// Sets every value of `other`, in its order.
    pub fn merge(&mut self, other: &RequirementStore)
        requires
            old(self).wf(),
            other.wf(),
        ensures
            final(self).wf(),
            final(self)@ == old(self)@.union_prefer_right(other@),
    {
        let ghost start = self@;
        let ghost ops = other.pairs();
        let mut i: usize = 0;
        while i < other.entries.len()
            invariant
                self.wf(),
                i <= other.entries@.len(),
                ops == other.pairs(),
                pairs_distinct(ops),
                self@ == start.union_prefer_right(pairs_map(ops.take(i as int))),
            decreases other.entries.len() - i,
        {
            let ghost before = self@;
            self.set_requirement_value(other.entries[i].0.as_str(), other.entries[i].1.clone());
            proof {
                let pre = ops.take(i as int);
                let post = ops.take(i + 1);
                assert(post =~= pre.push(ops[i as int]));
                assert(!has_pair_key(pre, ops[i as int].0)) by {
                    if has_pair_key(pre, ops[i as int].0) {
                        let j = choose|j: int| 0 <= j < pre.len() && (#[trigger] pre[j]).0
                            == ops[i as int].0;
                        assert(ops[j].0 != ops[i as int].0);
                    }
                }
                assert(pairs_distinct(pre)) by {
                    assert forall|a: int, b: int| 0 <= a < b < pre.len() implies (
                    #[trigger] pre[a]).0 != (#[trigger] pre[b]).0 by {
                        assert(ops[a].0 != ops[b].0);
                    }
                }
                lemma_pairs_push(pre, ops[i as int]);
                assert(self@ =~= start.union_prefer_right(pairs_map(post)));
            }
            i = i + 1;
        }
        proof {
            assert(ops.take(ops.len() as int) =~= ops);
        }
    }

    /// The values of the keys that `requirements` ask for, where one is set. Asking the
    /// parents of a carbot for the others reaches this same store, so nothing more is
    /// found that way.
    pub fn find_requirements(&self, requirements: &Vec<Requirement>) -> (r: RequirementStore)
        requires
            self.wf(),
        ensures
            r.wf(),
            r@ == self@.restrict(requirement_keys(requirements_view(requirements@))),
    {
        let ghost reqs = requirements_view(requirements@);
        let mut r = RequirementStore::new();
        let mut i: usize = 0;
        while i < requirements.len()
            invariant
                self.wf(),
                r.wf(),
                i <= requirements@.len(),
                reqs == requirements_view(requirements@),
                r@ == self@.restrict(requirement_keys(reqs.take(i as int))),
            decreases requirements.len() - i,
        {
            let key = requirements[i].key.as_str();
            let ghost before = r@;
            match self.load_requirement_value(key) {
                Some(v) => {
                    r.set_requirement_value(key, v);
                },
                None => {},
            }
            proof {
                assert(reqs[i as int] == requirements@[i as int]@);
                let post = reqs.take(i + 1);
                let pre = reqs.take(i as int);
                assert forall|k: Seq<char>| #[trigger] requirement_keys(post).contains(k) == (
                requirement_keys(pre).contains(k) || k == key@) by {
                    if requirement_keys(post).contains(k) {
                        let j = choose|j: int| 0 <= j < post.len() && (#[trigger] post[j]).key == k;
                        if j < i {
                            assert(pre[j] == post[j]);
                        }
                    }
                    if requirement_keys(pre).contains(k) {
                        let j = choose|j: int| 0 <= j < pre.len() && (#[trigger] pre[j]).key == k;
                        assert(post[j] == pre[j]);
                    }
                    if k == key@ {
                        assert(post[i as int].key == k);
                    }
                }
                assert(r@ =~= self@.restrict(requirement_keys(post)));
            }
            i = i + 1;
        }
        proof {
            assert(reqs.take(reqs.len() as int) =~= reqs);
        }
        r
    }
}

/// Why a carbot or a tool lookup failed.
#[derive(Debug, Clone, Copy, PartialEq, Eq, Structural)]
pub enum AgentError {
    /// The carbot was started before.
    AlreadyRunning,
    /// No tool has the name asked for.
    ToolNotFound,
}

impl AgentError {
    pub fn message(&self) -> (r: String)
        ensures
            r@ == match self {
                AgentError::AlreadyRunning => "carbot already running"@,
                AgentError::ToolNotFound => "tool not found"@,
            },
    {
        match self {
            AgentError::AlreadyRunning => owned("carbot already running"),
            AgentError::ToolNotFound => owned("tool not found"),
        }
    }
}

/// Whether a carbot has been started: it runs once.
pub struct RunGate {
    is_run: bool,
}

impl RunGate {
    pub closed spec fn running(&self) -> bool {
        self.is_run
    }

    /// Not started.
    pub fn new() -> (r: Self)
        ensures
            !r.running(),
    {
        RunGate { is_run: false }
    }

    /// Marks the carbot started; `true` when it had not been.
    pub fn check_can_run(&mut self) -> (r: bool)
        ensures
            r == !old(self).running(),
            final(self).running(),
    {
        if self.is_run {
            return false;
        }
        self.is_run = true;
        true
    }

    /// Starts the carbot, or fails with `AlreadyRunning` when it was started before.
    pub fn start(&mut self) -> (r: Result<(), AgentError>)
        ensures
            r is Ok <==> !old(self).running(),
            r is Err ==> r == Err::<(), AgentError>(AgentError::AlreadyRunning),
            final(self).running(),
    {
        if self.check_can_run() {
            Ok(())
        } else {
            Err(AgentError::AlreadyRunning)
        }
    }
}

/// How many times a planner asks for the next layer of its plan at most.
pub const PLAN_ROUNDS: u32 = 20;

/// The texts of `results`, each followed by a line break.
pub open spec fn results_text(results: Seq<Seq<char>>) -> Seq<char>
    decreases results.len(),
{
    if results.len() == 0 {
        Seq::empty()
    } else {
        results_text(results.drop_last()) + results.last() + "\n"@
    }
}

pub open spec fn nodes_view(nodes: Seq<NodeInfo>) -> Seq<NodeInfoView> {
    nodes.map_values(|n: NodeInfo| n@)
}

pub struct PlannerView {
    pub node: NodeInfoView,
    pub round: nat,
    pub finished: bool,
    pub results: Seq<Seq<char>>,
}

/// Plans the work of a node layer by layer: each round asks the model for the next
/// layer, whose nodes become tool callers, until a plan says it is finished, the model
/// gives no plan, or the rounds run out.
pub struct Planner {
    node: NodeInfo,
    round: u32,
    finished: bool,
    results: Vec<String>,
}

impl View for Planner {
    type V = PlannerView;

    closed spec fn view(&self) -> PlannerView {
        PlannerView {
            node: self.node@,
            round: self.round as nat,
            finished: self.finished,
            results: texts_view(self.results@),
        }
    }
}

impl Planner {
    pub closed spec fn wf(&self) -> bool {
        self.round <= PLAN_ROUNDS
    }

    /// A planner never asks for more than `PLAN_ROUNDS` layers: its round count, which
    /// each reply raises by one, stays within them.
    pub proof fn lemma_rounds_bounded(&self)
        requires
            self.wf(),
        ensures
            self@.round <= PLAN_ROUNDS,
    {
    }

    pub fn new(node: NodeInfo) -> (r: Self)
        ensures
            r.wf(),
            r@ == (PlannerView {
                node: node@,
                round: 0,
                finished: false,
                results: Seq::empty(),
            }),
    {
        let r = Planner { node, round: 0, finished: false, results: Vec::new() };
        assert(r@.results =~= Seq::<Seq<char>>::empty());
        r
    }

    pub fn node(&self) -> (r: &NodeInfo)
        ensures
            r@ == self@.node,
    {
        &self.node
    }

    /// The results of the plans so far.
    pub fn results(&self) -> (r: &Vec<String>)
        ensures
            texts_view(r@) == self@.results,
    {
        &self.results
    }

    /// Whether the planner asks for another layer: it has not finished and has rounds left.
    pub fn wants_plan(&self) -> (r: bool)
        ensures
            r == (!self@.finished && self@.round < PLAN_ROUNDS),
    {
        !self.finished && self.round < PLAN_ROUNDS
    }

    /// What the model is told in this round; `tools` are the JSON texts of the tools.
    pub fn messages(&self, tools: &Vec<String>, known: &RequirementStore) -> (r: Vec<ChatMessage>)
        requires
            known.wf(),
        ensures
            messages_view(r@) == planner_messages_spec(
                self@.node.goal,
                texts_view(tools@),
                self@.results,
                known.pairs(),
            ),
    {
        planner_messages(self.node.goal.as_str(), tools, &self.results, known.entries())
    }

    /// Takes the model's reply to a round: no plan ends the planning; a finished plan
    /// adds its result, if it has one, and ends it; any other plan hands back its nodes
    /// to be run as children.
    pub fn on_plan(&mut self, reply: Option<PlanInfo>) -> (spawn: Vec<NodeInfo>)
        requires
            old(self).wf(),
            !old(self)@.finished,
            old(self)@.round < PLAN_ROUNDS,
        ensures
            final(self).wf(),
            final(self)@.node == old(self)@.node,
            final(self)@.round == old(self)@.round + 1,
            match reply {
                None => {
                    &&& final(self)@.finished
                    &&& final(self)@.results == old(self)@.results
                    &&& spawn@.len() == 0
                },
                Some(p) => if p@.finish {
                    &&& final(self)@.finished
                    &&& final(self)@.results == match p@.result {
                        Some(x) => old(self)@.results.push(x),
                        None => old(self)@.results,
                    }
                    &&& spawn@.len() == 0
                } else {
                    &&& !final(self)@.finished
                    &&& final(self)@.results == old(self)@.results
                    &&& nodes_view(spawn@) == match p@.nodes {
                        Some(ns) => ns,
                        None => Seq::<NodeInfoView>::empty(),
                    }
                },
            },
    {
        self.round = self.round + 1;
        match reply {
            None => {
                self.finished = true;
                Vec::new()
            },
            Some(plan) => {
                if plan.finish {
                    self.finished = true;
                    match plan.result {
                        Some(x) => {
                            self.results.push(x);
                            assert(self@.results =~= old(self)@.results.push(x@));
                        },
                        None => {},
                    }
                    Vec::new()
                } else {
                    match plan.nodes {
                        Some(ns) => {
                            assert(nodes_view(ns@) =~= ns@.map_values(|x: NodeInfo| x@));
                            ns
                        },
                        None => {
                            let v: Vec<NodeInfo> = Vec::new();
                            assert(nodes_view(v@) =~= Seq::<NodeInfoView>::empty());
                            v
                        },
                    }
                }
            },
        }
    }

    /// What the planner gives back: each result followed by a line break.
    pub fn output(&self) -> (r: String)
        ensures
            r@ == results_text(self@.results),
    {
        let ghost rs = self@.results;
        let mut r = String::new();
        let mut i: usize = 0;
        while i < self.results.len()
            invariant
                i <= self.results@.len(),
                rs == texts_view(self.results@),
                r@ == results_text(rs.take(i as int)),
            decreases self.results.len() - i,
        {
            proof {
                assert(rs.take(i + 1).drop_last() =~= rs.take(i as int));
            }
            r.append(self.results[i].as_str());
            r.append("\n");
            i = i + 1;
        }
        proof {
            assert(rs.take(rs.len() as int) =~= rs);
        }
        r
    }
}

/// The parameters a tool is called with when the model gives none.
pub open spec fn default_params() -> Seq<char> {
    "{}"@
}

/// The next step of a tool caller after a reply of the model.
#[derive(Debug)]
pub enum ToolCallStep {
    /// The caller is done, with this result.
    Finish(String),
    /// Asks the model again with more known values; these are the parameters so far.
    AskAgain(String),
    /// Calls the tool with these parameters.
    Call(String),
}

pub enum ToolCallStepView {
    Finish(Seq<char>),
    AskAgain(Seq<char>),
    Call(Seq<char>),
}

impl View for ToolCallStep {
    type V = ToolCallStepView;

    open spec fn view(&self) -> ToolCallStepView {
        match self {
            ToolCallStep::Finish(x) => ToolCallStepView::Finish(x@),
            ToolCallStep::AskAgain(x) => ToolCallStepView::AskAgain(x@),
            ToolCallStep::Call(x) => ToolCallStepView::Call(x@),
        }
    }
}

/// Runs the tool of one node: asks the model for the parameters, once more when its
/// reply names requirements whose values are known, and then calls the tool.
pub struct ToolCaller {
    node: NodeInfo,
}

impl ToolCaller {
    pub closed spec fn node_view(&self) -> NodeInfoView {
        self.node@
    }

    pub fn new(node: NodeInfo) -> (r: Self)
        ensures
            r.node_view() == node@,
    {
        ToolCaller { node }
    }

    pub fn node(&self) -> (r: &NodeInfo)
        ensures
            r@ == self.node_view(),
    {
        &self.node
    }

    /// What the model is told.
    pub fn messages(&self, known: &RequirementStore) -> (r: Vec<ChatMessage>)
        requires
            known.wf(),
        ensures
            messages_view(r@) == tool_messages_spec(self.node_view().goal, known.pairs()),
    {
        tool_messages(self.node.goal.as_str(), known.entries())
    }

    /// The tool caller tells the model every known value: its messages are its
    /// instructions and the node's goal, then, when some value is known, one more
    /// assistant message holding the JSON object of the known values, in which every
    /// known key stands with its value.
    pub proof fn lemma_messages_send_known(&self, known: &RequirementStore)
        requires
            known.wf(),
        ensures
            ({
                let ms = tool_messages_spec(self.node_view().goal, known.pairs());
                &&& ms.len() >= 2
                &&& ms[0] == message(MessageRole::System, TOOL_PROMPT@)
                &&& ms[1] == message(MessageRole::Assistant, self.node_view().goal)
                &&& known@ == Map::<Seq<char>, Seq<char>>::empty() ==> ms.len() == 2
                &&& known@ != Map::<Seq<char>, Seq<char>>::empty() ==> {
                    &&& ms.len() == 3
                    &&& ms[2] == ChatMessageView {
                        role: MessageRole::Assistant,
                        content: json_object_text(known.pairs()),
                        name: None,
                    }
                    &&& forall|k: Seq<char>| #[trigger] known@.dom().contains(k) ==> exists|i: int|
                        0 <= i < known.pairs().len() && #[trigger] known.pairs()[i] == (k, known@[k])
                }
            }),
    {
        lemma_pairs_empty(known.pairs());
        let ps = known.pairs();
        assert forall|k: Seq<char>| #[trigger] known@.dom().contains(k) implies exists|i: int|
            0 <= i < ps.len() && #[trigger] ps[i] == (k, known@[k]) by {
            let i = pair_index(ps, k);
            lemma_pairs_lookup(ps, i);
            assert(ps[i] == (k, known@[k]));
        }
    }

    /// Takes the model's first reply. No reply finishes with no text, and a result
    /// finishes with it. Otherwise the parameters are the reply's, or `{}`; when `store`
    /// holds values of requirements the reply names, they join `known` and the model is
    /// asked again, and else the tool is called.
    pub fn on_first_reply(
        &self,
        reply: Option<ToolCallInfo>,
        store: &RequirementStore,
        known: &mut RequirementStore,
    ) -> (r: ToolCallStep)
        requires
            store.wf(),
            old(known).wf(),
        ensures
            final(known).wf(),
            match reply {
                None => r@ == ToolCallStepView::Finish(Seq::empty()) && final(known)@ == old(
                    known,
                )@,
                Some(info) => match info@.result {
                    Some(x) => r@ == ToolCallStepView::Finish(x) && final(known)@ == old(known)@,
                    None => {
                        let params = match info@.params {
                            Some(p) => p,
                            None => default_params(),
                        };
                        let found = store@.restrict(requirement_keys(info@.requirements));
                        if found == Map::<Seq<char>, Seq<char>>::empty() {
                            r@ == ToolCallStepView::Call(params) && final(known)@ == old(known)@
                        } else {
                            r@ == ToolCallStepView::AskAgain(params) && final(known)@ == old(
                                known,
                            )@.union_prefer_right(found)
                        }
                    },
                },
            },
    {
        match reply {
            None => ToolCallStep::Finish(String::new()),
            Some(info) => {
                match info.result {
                    Some(x) => ToolCallStep::Finish(x),
                    None => {
                        let params = match info.params {
                            Some(p) => p,
                            None => owned("{}"),
                        };
                        let found = store.find_requirements(&info.requirements);
                        if found.is_empty() {
                            ToolCallStep::Call(params)
                        } else {
                            known.merge(&found);
                            ToolCallStep::AskAgain(params)
                        }
                    },
                }
            },
        }
    }

    /// Takes the model's second reply: no reply finishes with no text; otherwise the
    /// tool is called with the reply's parameters, or with `params` when it has none.
    pub fn on_second_reply(&self, reply: Option<ToolCallInfo>, params: String) -> (r: ToolCallStep)
        ensures
            match reply {
                None => r@ == ToolCallStepView::Finish(Seq::empty()),
                Some(info) => match info@.params {
                    Some(p) => r@ == ToolCallStepView::Call(p),
                    None => r@ == ToolCallStepView::Call(params@),
                },
            },
    {
        match reply {
            None => ToolCallStep::Finish(String::new()),
            Some(info) => match info.params {
                Some(p) => ToolCallStep::Call(p),
                None => ToolCallStep::Call(params),
            },
        }
    }
}

/// The parameters a tool is built from: `params`, or `{}` when it is empty.
pub fn tool_call_params(params: &str) -> (r: String)
    ensures
        r@ == if params@.len() == 0 {
            default_params()
        } else {
            params@
        },
{
    if params.unicode_len() == 0 {
        owned("{}")
    } else {
        owned(params)
    }
}

impl Named for ToolSchema {
    open spec fn name_view(&self) -> Seq<char> {
        self.name@
    }

    fn name_str(&self) -> (r: &str) {
        self.name.as_str()
    }
}

pub open spec fn schemas_view(s: Seq<ToolSchema>) -> Seq<ToolSchemaView> {
    s.map_values(|t: ToolSchema| t@)
}

/// The tools on offer, one per name.
pub struct Factory {
    data: NameIndex<ToolSchema>,
}

impl Factory {
    /// The tools in ascending order of their names.
    pub closed spec fn tools_view(&self) -> Seq<ToolSchema> {
        self.data@
    }

    pub closed spec fn wf(&self) -> bool {
        self.data.wf()
    }

    pub fn new() -> (r: Self)
        ensures
            r.wf(),
            r.tools_view() == Seq::<ToolSchema>::empty(),
    {
        Factory { data: NameIndex::new() }
    }

    /// The tools of a factory ascend by name, so no name occurs twice. Once `tool` is put
    /// among them, looking its name up gives it, and other names give what they gave.
    pub proof fn lemma_registered_tool(&self, tool: ToolSchema, name: Seq<char>)
        requires
            self.wf(),
        ensures
            ascend_by(self.tools_view(), name_key::<ToolSchema>()),
            lookup_by(
                inserted_by(self.tools_view(), tool, name_key::<ToolSchema>()),
                tool.name@,
                name_key::<ToolSchema>(),
            ) == Some(tool),
            name != tool.name@ ==> lookup_by(
                inserted_by(self.tools_view(), tool, name_key::<ToolSchema>()),
                name,
                name_key::<ToolSchema>(),
            ) == lookup_by(self.tools_view(), name, name_key::<ToolSchema>()),
    {
        lemma_lookup_inserted(self.tools_view(), tool, name_key::<ToolSchema>(), name);
    }

    /// Registering `tools` one after another leaves one tool per name, in ascending order
    /// of name: the names are those the factory had and those registered, none twice;
    /// under each name stands the last tool registered with it, or the tool it had before
    /// when none was.
    pub proof fn lemma_tools_registered(&self, tools: Seq<ToolSchema>, name: Seq<char>)
        requires
            self.wf(),
        ensures
            ascend_by(
                inserted_all(self.tools_view(), tools, name_key::<ToolSchema>()),
                name_key::<ToolSchema>(),
            ),
            forall|i: int, j: int|
                0 <= i < j < inserted_all(self.tools_view(), tools, name_key::<ToolSchema>()).len()
                    ==> (#[trigger] inserted_all(self.tools_view(), tools, name_key::<ToolSchema>())[i]).name@
                    != (#[trigger] inserted_all(self.tools_view(), tools, name_key::<ToolSchema>())[j]).name@,
            has_key_by(
                inserted_all(self.tools_view(), tools, name_key::<ToolSchema>()),
                name,
                name_key::<ToolSchema>(),
            ) <==> (last_named(tools, name, name_key::<ToolSchema>()) is Some || has_key_by(
                self.tools_view(),
                name,
                name_key::<ToolSchema>(),
            )),
            lookup_by(
                inserted_all(self.tools_view(), tools, name_key::<ToolSchema>()),
                name,
                name_key::<ToolSchema>(),
            ) == match last_named(tools, name, name_key::<ToolSchema>()) {
                Some(t) => Some(t),
                None => lookup_by(self.tools_view(), name, name_key::<ToolSchema>()),
            },
    {
        let key = name_key::<ToolSchema>();
        let out = inserted_all(self.tools_view(), tools, key);
        lemma_lookup_inserted_all(self.tools_view(), tools, key, name);
        assert forall|i: int, j: int| 0 <= i < j < out.len() implies (#[trigger] out[i]).name@
            != (#[trigger] out[j]).name@ by {
            assert(text_lt(key(out[i]), key(out[j])));
            lemma_text_lt_irreflexive(key(out[i]));
        }
    }

    /// Adds `tool`, replacing the tool of the same name.
    pub fn register(&mut self, tool: ToolSchema)
        requires
            old(self).wf(),
        ensures
            final(self).wf(),
            final(self).tools_view() == inserted_by(
                old(self).tools_view(),
                tool,
                name_key::<ToolSchema>(),
            ),
    {
        self.data.insert(tool);
    }

    /// Copies of all the tools, in ascending order of their names.
    pub fn tools(&self) -> (r: Vec<ToolSchema>)
        ensures
            schemas_view(r@) == schemas_view(self.tools_view()),
    {
        let items = self.data.values();
        let mut r: Vec<ToolSchema> = Vec::new();
        let mut i: usize = 0;
        while i < items.len()
            invariant
                i <= items@.len(),
                r@.len() == i,
                forall|k: int| 0 <= k < i ==> (#[trigger] r@[k])@ == items@[k]@,
            decreases items.len() - i,
        {
            r.push(items[i].clone());
            i = i + 1;
        }
        assert(schemas_view(r@) =~= schemas_view(self.tools_view()));
        r
    }

    /// A copy of the tool named `name`, or `ToolNotFound`.
    pub fn tool(&self, name: &str) -> (r: Result<ToolSchema, AgentError>)
        requires
            self.wf(),
        ensures
            r is Ok <==> lookup_by(self.tools_view(), name@, name_key::<ToolSchema>()) is Some,
            r matches Ok(t) ==> t@ == lookup_by(
                self.tools_view(),
                name@,
                name_key::<ToolSchema>(),
            )->0@,
            r is Err ==> r == Err::<ToolSchema, AgentError>(AgentError::ToolNotFound),
    {
        match self.data.get(name) {
            Some(t) => Ok(t.clone()),
            None => Err(AgentError::ToolNotFound),
        }
    }
}

/// The parameters of the greeting tool.
#[derive(Debug, Default)]
pub struct HelloWorldReq {
    pub name: String,
}

/// What the greeting tool answers.
#[derive(Debug, Default)]
pub struct HelloWorldResp {
    pub msg: String,
}

/// The greeting tool: it answers "how are u", whoever asks.
pub fn print_hello_world(_req: HelloWorldReq) -> (r: HelloWorldResp)
    ensures
        r.msg@ == "how are u"@,
{
    HelloWorldResp { msg: owned("how are u") }
}

} // verus!
