//! A labeled directed graph with probabilistic edges, stored as two flat
//! arrays. Transitions out of one state form a singly-linked list threaded
//! through the transitions array; adding a transition prepends to that list,
//! so successors enumerate in reverse order of insertion.
//!
//! Probabilities are fixed-point fractions: `PROB_ONE` stands for 1. The
//! probabilities out of a state need not sum to 1; the stepping rule treats
//! the remaining mass as "stay in the current state".

use vstd::prelude::*;
use vstd::pervasive::VecAdditionalExecFns;
use crate::errors::LineError;
use crate::random::draw_below;

verus! {

/// The fixed-point representation of probability 1.
pub const PROB_ONE: u64 = 1_000_000_000;

/// A state slot: a display name and the head of its outgoing-transition list.
pub struct State {
    pub name: String,
    pub first_outgoing_transition: Option<usize>,
}

/// A weighted edge, threaded into its source's outgoing list.
pub struct Transition {
    pub target: usize,
    pub probability: u64,
    pub next_outgoing_transition: Option<usize>,
}

/// A probabilistic state machine over indexed states.
pub struct MarkovChain {
    pub states: Vec<State>,
    pub transitions: Vec<Transition>,
}

impl MarkovChain {
    /// Validity of the transition at position `i`: its target is a state, its
    /// probability is at most 1, and its list link points strictly backwards
    /// (transitions are prepended, so links always point at older entries).
    pub open spec fn wf_transition(self, i: int) -> bool {
        &&& (self.transitions@[i].target as int) < self.states@.len()
        &&& self.transitions@[i].probability <= PROB_ONE
        &&& (match self.transitions@[i].next_outgoing_transition {
            Some(n) => (n as int) < i,
            None => true,
        })
    }

    /// Validity of a list head.
    pub open spec fn head_ok(self, f: Option<usize>) -> bool {
        match f {
            Some(i) => (i as int) < self.transitions@.len(),
            None => true,
        }
    }

    /// Validity of the whole graph.
    pub open spec fn wf(self) -> bool {
        &&& forall|i: int| 0 <= i < self.transitions@.len() ==> #[trigger] self.wf_transition(i)
        &&& forall|s: int|
            0 <= s < self.states@.len() ==> self.head_ok(
                (#[trigger] self.states@[s]).first_outgoing_transition,
            )
    }

    /// Whether position `i` can be walked: in range with a backward link.
    pub open spec fn node_ok(self, i: int) -> bool {
        &&& 0 <= i < self.transitions@.len()
        &&& (match self.transitions@[i].next_outgoing_transition {
            Some(n) => (n as int) < i,
            None => true,
        })
    }

    /// The targets along the outgoing list starting at `cur`, in list order.
    pub open spec fn targets_from(self, cur: Option<usize>) -> Seq<usize>
        decreases (match cur {
            Some(i) => i as int + 1,
            None => 0,
        }),
    {
        match cur {
            None => Seq::empty(),
            Some(i) => if self.node_ok(i as int) {
                seq![self.transitions@[i as int].target] + self.targets_from(
                    self.transitions@[i as int].next_outgoing_transition,
                )
            } else {
                Seq::empty()
            },
        }
    }

    /// The successor targets of state `s`, in reverse order of insertion.
    pub open spec fn spec_successors(self, s: int) -> Seq<usize> {
        if 0 <= s < self.states@.len() {
            self.targets_from(self.states@[s].first_outgoing_transition)
        } else {
            Seq::empty()
        }
    }

    /// The transition chosen by draw `r`: probabilities accumulate in
    /// successor order and the first transition whose cumulative sum exceeds
    /// `r` fires; `None` when the mass does not cover `r` (the state stays).
    pub open spec fn chosen_from(self, cur: Option<usize>, r: int) -> Option<usize>
        decreases (match cur {
            Some(i) => i as int + 1,
            None => 0,
        }),
    {
        match cur {
            None => None,
            Some(i) => if self.node_ok(i as int) {
                if r < self.transitions@[i as int].probability {
                    Some(self.transitions@[i as int].target)
                } else {
                    self.chosen_from(
                        self.transitions@[i as int].next_outgoing_transition,
                        r - self.transitions@[i as int].probability,
                    )
                }
            } else {
                None
            },
        }
    }

    /// The transition out of state `s` chosen by draw `r`, if any fires.
    pub open spec fn spec_choose(self, s: int, r: int) -> Option<usize> {
        if 0 <= s < self.states@.len() {
            self.chosen_from(self.states@[s].first_outgoing_transition, r)
        } else {
            None
        }
    }

    /// The state that slot `s` shows after one tick with draw `r`: the chosen
    /// transition's target, or `s` itself when no transition fires.
    pub open spec fn spec_step_target(self, s: int, r: int) -> int {
        match self.spec_choose(s, r) {
            Some(t) => t as int,
            None => s,
        }
    }

    /// Whether the list from `cur` holds a transition onto state `j`.
    pub open spec fn has_edge_from(self, cur: Option<usize>, j: int) -> bool
        decreases (match cur {
            Some(i) => i as int + 1,
            None => 0,
        }),
    {
        match cur {
            None => false,
            Some(i) => if self.node_ok(i as int) {
                ||| self.transitions@[i as int].target as int == j
                ||| self.has_edge_from(self.transitions@[i as int].next_outgoing_transition, j)
            } else {
                false
            },
        }
    }

    /// The probability of the transition from the list at `cur` onto `j`;
    /// when several exist, the one deepest in the list — the one added first
    /// — wins, matching a matrix filled in successor order. Zero when absent.
    pub open spec fn edge_prob_from(self, cur: Option<usize>, j: int) -> u64
        decreases (match cur {
            Some(i) => i as int + 1,
            None => 0,
        }),
    {
        match cur {
            None => 0,
            Some(i) => if self.node_ok(i as int) {
                if self.has_edge_from(self.transitions@[i as int].next_outgoing_transition, j) {
                    self.edge_prob_from(self.transitions@[i as int].next_outgoing_transition, j)
                } else if self.transitions@[i as int].target as int == j {
                    self.transitions@[i as int].probability
                } else {
                    0
                }
            } else {
                0
            },
        }
    }

    /// Whether the chain has a transition from state `s` onto state `j`.
    pub open spec fn spec_has_edge(self, s: int, j: int) -> bool {
        if 0 <= s < self.states@.len() {
            self.has_edge_from(self.states@[s].first_outgoing_transition, j)
        } else {
            false
        }
    }

    /// The matrix entry for the transition from `s` onto `j` (zero if none).
    pub open spec fn spec_edge_prob(self, s: int, j: int) -> u64 {
        if 0 <= s < self.states@.len() {
            self.edge_prob_from(self.states@[s].first_outgoing_transition, j)
        } else {
            0
        }
    }

    /// Creates a chain with no states and no transitions.
    pub fn new() -> (c: MarkovChain)
        ensures
            c.wf(),
            c.states@.len() == 0,
            c.transitions@.len() == 0,
    {
        MarkovChain { states: Vec::new(), transitions: Vec::new() }
    }

    /// Appends a state with no outgoing transitions and returns its index.
    /// Never fails.
    pub fn add_state(&mut self, title: String) -> (state_index: usize)
        requires
            old(self).wf(),
        ensures
            final(self).wf(),
            state_index as int == old(self).states@.len(),
            final(self).transitions@ == old(self).transitions@,
            final(self).states@.len() == old(self).states@.len() + 1,
            forall|s: int|
                0 <= s < old(self).states@.len() ==> final(self).states@[s] == old(self).states@[s],
            final(self).states@[state_index as int].name == title,
            final(self).states@[state_index as int].first_outgoing_transition is None,
            final(self).spec_successors(state_index as int) == Seq::<usize>::empty(),
            forall|s: int| #![trigger final(self).spec_successors(s)]
                0 <= s < old(self).states@.len() ==> final(self).spec_successors(s) == old(
                    self,
                ).spec_successors(s),
    {
        let state_index = self.states.len();
        self.states.push(State { name: title, first_outgoing_transition: None });
        proof {
            assert forall|i: int| 0 <= i < self.transitions@.len() implies #[trigger] self.wf_transition(
                i,
            ) by {
                assert(old(self).wf_transition(i));
            }
            assert forall|s: int| 0 <= s < self.states@.len() implies self.head_ok(
                (#[trigger] self.states@[s]).first_outgoing_transition,
            ) by {
                if s < old(self).states@.len() {
                    assert(old(self).head_ok(old(self).states@[s].first_outgoing_transition));
                }
            }
            lemma_walks_agree(*old(self), *self);
        }
        state_index
    }

    /// Prepends a transition to `source`'s outgoing list. Fails with
    /// `IndexError`, changing nothing, exactly when `source` or `target` is
    /// out of range. The probability is a fixed-point fraction of `PROB_ONE`.
    pub fn add_transition(&mut self, source: usize, target: usize, probability: u64) -> (r: Result<
        (),
        LineError,
    >)
        requires
            old(self).wf(),
            probability <= PROB_ONE,
        ensures
            final(self).wf(),
            r is Ok <==> (source as int) < old(self).states@.len() && (target as int) < old(
                self,
            ).states@.len(),
            r is Err ==> *final(self) == *old(self) && r == Result::<(), LineError>::Err(
                LineError::IndexError,
            ),
            r is Ok ==> {
                &&& final(self).transitions@ == old(self).transitions@.push(
                    (Transition {
                        target,
                        probability,
                        next_outgoing_transition: old(self).states@[source as int].first_outgoing_transition,
                    }),
                )
                &&& final(self).states@.len() == old(self).states@.len()
                &&& forall|s: int|
                    0 <= s < old(self).states@.len() && s != source as int ==> final(self).states@[s] == old(self).states@[s]
                &&& final(self).states@[source as int].name == old(
                    self,
                ).states@[source as int].name
                &&& final(self).states@[source as int].first_outgoing_transition == Some(
                    old(self).transitions@.len() as usize,
                )
                &&& final(self).spec_successors(source as int) == seq![target] + old(
                    self,
                ).spec_successors(source as int)
                &&& forall|s: int| #![trigger final(self).spec_successors(s)]
                    0 <= s < old(self).states@.len() && s != source as int ==> final(self).spec_successors(s) == old(self).spec_successors(s)
                &&& forall|j: int| #![trigger final(self).spec_has_edge(source as int, j)]
                    final(self).spec_has_edge(source as int, j) == (old(self).spec_has_edge(
                        source as int,
                        j,
                    ) || j == target as int)
                &&& forall|j: int| #![trigger final(self).spec_edge_prob(source as int, j)]
                    final(self).spec_edge_prob(source as int, j) == (if old(self).spec_has_edge(
                        source as int,
                        j,
                    ) {
                        old(self).spec_edge_prob(source as int, j)
                    } else if j == target as int {
                        probability
                    } else {
                        0u64
                    })
                &&& forall|s: int, j: int| #![trigger final(self).spec_has_edge(s, j)]
                    0 <= s < old(self).states@.len() && s != source as int ==> final(self).spec_has_edge(s, j) == old(self).spec_has_edge(s, j)
                &&& forall|s: int, j: int| #![trigger final(self).spec_edge_prob(s, j)]
                    0 <= s < old(self).states@.len() && s != source as int ==> final(self).spec_edge_prob(s, j) == old(self).spec_edge_prob(s, j)
            },
    {
        if source >= self.states.len() || target >= self.states.len() {
            return Err(LineError::IndexError);
        }
        let transition_index = self.transitions.len();
        let head = self.states[source].first_outgoing_transition;
        self.transitions.push(
            Transition { target, probability, next_outgoing_transition: head },
        );
        let mut st = placeholder_state();
        self.states.set_and_swap(source, &mut st);
        st.first_outgoing_transition = Some(transition_index);
        self.states.set_and_swap(source, &mut st);
        proof {
            let oldhead = old(self).states@[source as int].first_outgoing_transition;
            assert(self.states@ =~= old(self).states@.update(
                source as int,
                self.states@[source as int],
            ));
            assert(old(self).head_ok(oldhead));
            assert forall|i: int| 0 <= i < self.transitions@.len() implies #[trigger] self.wf_transition(
                i,
            ) by {
                if i < old(self).transitions@.len() {
                    assert(old(self).wf_transition(i));
                }
            }
            assert forall|s: int| 0 <= s < self.states@.len() implies self.head_ok(
                (#[trigger] self.states@[s]).first_outgoing_transition,
            ) by {
                if s != source as int {
                    assert(old(self).head_ok(old(self).states@[s].first_outgoing_transition));
                }
            }
            lemma_walks_agree(*old(self), *self);
            lemma_walk_pair_targets(*old(self), *self, oldhead);
            assert(self.spec_successors(source as int) =~= seq![target] + old(
                self,
            ).spec_successors(source as int));
            assert forall|j: int| #[trigger] self.spec_has_edge(source as int, j) == (old(
                self,
            ).spec_has_edge(source as int, j) || j == target as int) by {
                lemma_walk_pair_edge(*old(self), *self, oldhead, j);
            }
            assert forall|j: int| #[trigger] self.spec_edge_prob(source as int, j) == (if old(
                self,
            ).spec_has_edge(source as int, j) {
                old(self).spec_edge_prob(source as int, j)
            } else if j == target as int {
                probability
            } else {
                0u64
            }) by {
                lemma_walk_pair_edge(*old(self), *self, oldhead, j);
            }
        }
        Ok(())
    }

    /// The name currently shown by state `state_index`.
    pub fn get_state_name(&self, state_index: usize) -> (r: String)
        requires
            (state_index as int) < self.states@.len(),
        ensures
            r@ == self.states@[state_index as int].name@,
    {
        self.states[state_index].name.clone()
    }

    /// The name currently shown by state slot 0, read as "the current state"
    /// when one chain stands for one machine.
    pub fn get_current_state_name(&self) -> (r: String)
        requires
            self.states@.len() > 0,
        ensures
            r@ == self.states@[0].name@,
    {
        self.states[0].name.clone()
    }

    /// Renames state `state_index` in place.
    pub fn set_state(&mut self, state_index: usize, state_name: String)
        requires
            old(self).wf(),
            (state_index as int) < old(self).states@.len(),
        ensures
            final(self).wf(),
            final(self).transitions@ == old(self).transitions@,
            final(self).states@.len() == old(self).states@.len(),
            forall|s: int|
                0 <= s < old(self).states@.len() && s != state_index as int ==> final(self).states@[s] == old(self).states@[s],
            final(self).states@[state_index as int].name == state_name,
            final(self).states@[state_index as int].first_outgoing_transition == old(
                self,
            ).states@[state_index as int].first_outgoing_transition,
    {
        let first = self.states[state_index].first_outgoing_transition;
        self.states.set(state_index, State { name: state_name, first_outgoing_transition: first });
        proof {
            assert forall|i: int| 0 <= i < self.transitions@.len() implies #[trigger] self.wf_transition(
                i,
            ) by {
                assert(old(self).wf_transition(i));
            }
            assert forall|s: int| 0 <= s < self.states@.len() implies self.head_ok(
                (#[trigger] self.states@[s]).first_outgoing_transition,
            ) by {
                assert(old(self).head_ok(old(self).states@[s].first_outgoing_transition));
            }
        }
    }

    /// The successors of `source`: a cursor over the targets of transitions
    /// added with that source, in reverse order of addition. A fresh call is
    /// needed to iterate again.
    pub fn successors(&self, source: usize) -> (it: Successors)
        requires
            self.wf(),
            (source as int) < self.states@.len(),
        ensures
            it.wf(),
            it.remaining() == self.spec_successors(source as int),
    {
        let mut targets: Vec<usize> = Vec::new();
        let mut cur: Option<usize> = self.states[source].first_outgoing_transition;
        loop
            invariant
                self.wf(),
                self.head_ok(cur),
                targets@ + self.targets_from(cur) == self.spec_successors(source as int),
            decreases (match cur {
                Some(i) => i as int + 1,
                None => 0int,
            }),
        {
            match cur {
                None => {
                    proof {
                        assert(targets@.skip(0) =~= targets@);
                        assert(targets@ =~= self.spec_successors(source as int));
                    }
                    return Successors { targets, position: 0 };
                },
                Some(i) => {
                    assert(self.wf_transition(i as int));
                    targets.push(self.transitions[i].target);
                    cur = self.transitions[i].next_outgoing_transition;
                    proof {
                        assert(targets@ + self.targets_from(cur) =~= self.spec_successors(
                            source as int,
                        ));
                    }
                },
            }
        }
    }

    /// The transition out of `source` selected by the draw `r`, following the
    /// cumulative-probability rule; `None` when the outgoing mass does not
    /// cover `r`.
    pub fn choose_transition(&self, source: usize, r: u64) -> (t: Option<usize>)
        requires
            self.wf(),
            (source as int) < self.states@.len(),
        ensures
            t == self.spec_choose(source as int, r as int),
            (match t {
                Some(j) => (j as int) < self.states@.len(),
                None => true,
            }),
    {
        let mut cur: Option<usize> = self.states[source].first_outgoing_transition;
        let mut remaining: u64 = r;
        loop
            invariant
                self.wf(),
                self.head_ok(cur),
                self.chosen_from(cur, remaining as int) == self.spec_choose(source as int, r as int),
            decreases (match cur {
                Some(i) => i as int + 1,
                None => 0int,
            }),
        {
            match cur {
                None => {
                    return None;
                },
                Some(i) => {
                    assert(self.wf_transition(i as int));
                    let t = &self.transitions[i];
                    if remaining < t.probability {
                        return Some(t.target);
                    }
                    remaining = remaining - t.probability;
                    cur = t.next_outgoing_transition;
                },
            }
        }
    }
}

/// A throwaway state used while splicing a list head in place.
fn placeholder_state() -> (s: State)
    ensures
        s.first_outgoing_transition is None,
{
    State { name: String::new(), first_outgoing_transition: None }
}

/// An owned cursor over the successor targets of one state.
pub struct Successors {
    pub targets: Vec<usize>,
    pub position: usize,
}

impl Successors {
    /// Validity: the cursor position is within the snapshot.
    pub open spec fn wf(self) -> bool {
        self.position <= self.targets@.len()
    }

    /// The targets not yet yielded.
    pub open spec fn remaining(self) -> Seq<usize> {
        self.targets@.skip(self.position as int)
    }

    /// Yields the next successor target, or `None` when exhausted.
    pub fn next(&mut self) -> (r: Option<usize>)
        requires
            old(self).wf(),
        ensures
            final(self).wf(),
            (match r {
                Some(t) => {
                    &&& old(self).remaining().len() > 0
                    &&& t == old(self).remaining()[0]
                    &&& final(self).remaining() == old(self).remaining().skip(1)
                },
                None => {
                    &&& old(self).remaining().len() == 0
                    &&& *final(self) == *old(self)
                },
            }),
    {
        if self.position < self.targets.len() {
            let t = self.targets[self.position];
            self.position = self.position + 1;
            proof {
                assert(self.remaining() =~= old(self).remaining().skip(1));
            }
            Some(t)
        } else {
            None
        }
    }
}

/// The two shapes of transition arrays under which walks agree: unchanged,
/// or extended by one pushed transition (list links only point backwards, so
/// a pushed entry is never reached from an old head).
spec fn walk_pair(pre: MarkovChain, post: MarkovChain) -> bool {
    ||| post.transitions@ == pre.transitions@
    ||| (post.transitions@.len() == pre.transitions@.len() + 1 && post.transitions@
        == pre.transitions@.push(post.transitions@.last()))
}

proof fn lemma_walk_pair_targets(pre: MarkovChain, post: MarkovChain, cur: Option<usize>)
    requires
        walk_pair(pre, post),
        pre.head_ok(cur),
    ensures
        post.targets_from(cur) == pre.targets_from(cur),
    decreases (match cur {
        Some(i) => i as int + 1,
        None => 0,
    }),
{
    match cur {
        None => {},
        Some(i) => {
            if pre.node_ok(i as int) {
                lemma_walk_pair_targets(
                    pre,
                    post,
                    pre.transitions@[i as int].next_outgoing_transition,
                );
            }
        },
    }
}

proof fn lemma_walk_pair_edge(pre: MarkovChain, post: MarkovChain, cur: Option<usize>, j: int)
    requires
        walk_pair(pre, post),
        pre.head_ok(cur),
    ensures
        post.has_edge_from(cur, j) == pre.has_edge_from(cur, j),
        post.edge_prob_from(cur, j) == pre.edge_prob_from(cur, j),
    decreases (match cur {
        Some(i) => i as int + 1,
        None => 0,
    }),
{
    match cur {
        None => {},
        Some(i) => {
            if pre.node_ok(i as int) {
                lemma_walk_pair_edge(
                    pre,
                    post,
                    pre.transitions@[i as int].next_outgoing_transition,
                    j,
                );
            }
        },
    }
}

proof fn lemma_walk_pair_choice(pre: MarkovChain, post: MarkovChain, cur: Option<usize>, r: int)
    requires
        walk_pair(pre, post),
        pre.head_ok(cur),
    ensures
        post.chosen_from(cur, r) == pre.chosen_from(cur, r),
    decreases (match cur {
        Some(i) => i as int + 1,
        None => 0,
    }),
{
    match cur {
        None => {},
        Some(i) => {
            if pre.node_ok(i as int) {
                lemma_walk_pair_choice(
                    pre,
                    post,
                    pre.transitions@[i as int].next_outgoing_transition,
                    r - pre.transitions@[i as int].probability,
                );
            }
        },
    }
}

/// Two chains in a walk pair agree on successors, edges and choices for
/// every state whose list head both share.
proof fn lemma_walks_agree(pre: MarkovChain, post: MarkovChain)
    requires
        walk_pair(pre, post),
    ensures
        forall|s: int| #![trigger post.spec_successors(s)]
            walk_same_head(pre, post, s) ==> post.spec_successors(s) == pre.spec_successors(s),
        forall|s: int, j: int| #![trigger post.spec_has_edge(s, j)]
            walk_same_head(pre, post, s) ==> post.spec_has_edge(s, j) == pre.spec_has_edge(s, j),
        forall|s: int, j: int| #![trigger post.spec_edge_prob(s, j)]
            walk_same_head(pre, post, s) ==> post.spec_edge_prob(s, j) == pre.spec_edge_prob(s, j),
        forall|s: int, r: int| #![trigger post.spec_choose(s, r)]
            walk_same_head(pre, post, s) ==> post.spec_choose(s, r) == pre.spec_choose(s, r),
{
    assert forall|s: int| walk_same_head(pre, post, s) implies #[trigger] post.spec_successors(s)
        == pre.spec_successors(s) by {
        lemma_walk_pair_targets(pre, post, pre.states@[s].first_outgoing_transition);
    }
    assert forall|s: int, j: int| walk_same_head(pre, post, s) implies #[trigger] post.spec_has_edge(
        s,
        j,
    ) == pre.spec_has_edge(s, j) by {
        lemma_walk_pair_edge(pre, post, pre.states@[s].first_outgoing_transition, j);
    }
    assert forall|s: int, j: int| walk_same_head(pre, post, s) implies #[trigger] post.spec_edge_prob(
        s,
        j,
    ) == pre.spec_edge_prob(s, j) by {
        lemma_walk_pair_edge(pre, post, pre.states@[s].first_outgoing_transition, j);
    }
    assert forall|s: int, r: int| walk_same_head(pre, post, s) implies #[trigger] post.spec_choose(
        s,
        r,
    ) == pre.spec_choose(s, r) by {
        lemma_walk_pair_choice(pre, post, pre.states@[s].first_outgoing_transition, r);
    }
}

/// State `s` exists in both chains with the same outgoing-list head, valid in
/// the older chain.
spec fn walk_same_head(pre: MarkovChain, post: MarkovChain, s: int) -> bool {
    &&& 0 <= s < pre.states@.len()
    &&& s < post.states@.len()
    &&& post.states@[s].first_outgoing_transition == pre.states@[s].first_outgoing_transition
    &&& pre.head_ok(pre.states@[s].first_outgoing_transition)
}

/// One synchronous tick with the given draws: the graph is unchanged and each
/// slot takes the name that the pre-step chain showed at its step target.
/// Every new name is computed from the pre-step names alone.
pub open spec fn step_names_ok(pre: MarkovChain, post: MarkovChain, draws: Seq<u64>) -> bool {
    &&& post.transitions@ == pre.transitions@
    &&& post.states@.len() == pre.states@.len()
    &&& draws.len() == pre.states@.len()
    &&& forall|i: int|
        0 <= i < pre.states@.len() ==> {
            &&& (#[trigger] post.states@[i]).first_outgoing_transition
                == pre.states@[i].first_outgoing_transition
            &&& post.states@[i].name@ == pre.states@[pre.spec_step_target(
                i,
                draws[i] as int,
            )].name@
        }
}

/// One synchronous tick with draws all below `PROB_ONE`.
pub open spec fn stepped_with(pre: MarkovChain, post: MarkovChain, draws: Seq<u64>) -> bool {
    &&& step_names_ok(pre, post, draws)
    &&& forall|i: int| 0 <= i < draws.len() ==> (#[trigger] draws[i]) < PROB_ONE
}

/// `post` is `pre` advanced by one random synchronous tick.
pub open spec fn spec_stepped(pre: MarkovChain, post: MarkovChain) -> bool {
    exists|draws: Seq<u64>| #[trigger] stepped_with(pre, post, draws)
}

impl MarkovChain {
    /// Advances every state slot simultaneously for one tick, deciding slot
    /// `i` with `draws[i]`: all new names are computed from the pre-step
    /// names before any slot is overwritten.
    pub fn step_with_draws(&mut self, draws: &Vec<u64>)
        requires
            old(self).wf(),
            draws@.len() == old(self).states@.len(),
        ensures
            final(self).wf(),
            step_names_ok(*old(self), *final(self), draws@),
    {
        let n = self.states.len();
        let mut new_names: Vec<String> = Vec::new();
        let mut i: usize = 0;
        while i < n
            invariant
                old(self).wf(),
                *self == *old(self),
                n == self.states@.len(),
                draws@.len() == n,
                i <= n,
                new_names@.len() == i,
                forall|j: int|
                    0 <= j < i ==> (#[trigger] new_names@[j])@ == old(self).states@[old(
                        self,
                    ).spec_step_target(j, draws@[j] as int)].name@,
            decreases n - i,
        {
            let tgt: usize = match self.choose_transition(i, draws[i]) {
                Some(t) => t,
                None => i,
            };
            new_names.push(self.states[tgt].name.clone());
            i = i + 1;
        }
        let mut i: usize = 0;
        while i < n
            invariant
                old(self).wf(),
                n == self.states@.len(),
                n == old(self).states@.len(),
                self.transitions@ == old(self).transitions@,
                draws@.len() == n,
                new_names@.len() == n,
                i <= n,
                forall|j: int|
                    0 <= j < n ==> (#[trigger] new_names@[j])@ == old(self).states@[old(
                        self,
                    ).spec_step_target(j, draws@[j] as int)].name@,
                forall|j: int| i <= j < n ==> #[trigger] self.states@[j] == old(self).states@[j],
                forall|j: int|
                    0 <= j < i ==> {
                        &&& (#[trigger] self.states@[j]).first_outgoing_transition == old(
                            self,
                        ).states@[j].first_outgoing_transition
                        &&& self.states@[j].name@ == old(self).states@[old(self).spec_step_target(
                            j,
                            draws@[j] as int,
                        )].name@
                    },
            decreases n - i,
        {
            let nm = new_names[i].clone();
            let first = self.states[i].first_outgoing_transition;
            self.states.set(i, State { name: nm, first_outgoing_transition: first });
            i = i + 1;
        }
        proof {
            assert forall|i2: int| 0 <= i2 < self.transitions@.len() implies #[trigger] self.wf_transition(
                i2,
            ) by {
                assert(old(self).wf_transition(i2));
            }
            assert forall|s: int| 0 <= s < self.states@.len() implies self.head_ok(
                (#[trigger] self.states@[s]).first_outgoing_transition,
            ) by {
                assert(old(self).head_ok(old(self).states@[s].first_outgoing_transition));
            }
        }
    }

    /// Advances every state slot for one tick with fresh uniform draws.
    pub fn step_chain(machine: &mut MarkovChain)
        requires
            old(machine).wf(),
        ensures
            final(machine).wf(),
            spec_stepped(*old(machine), *final(machine)),
    {
        let n = machine.states.len();
        let mut draws: Vec<u64> = Vec::new();
        let mut i: usize = 0;
        while i < n
            invariant
                i <= n,
                draws@.len() == i,
                forall|j: int| 0 <= j < i ==> (#[trigger] draws@[j]) < PROB_ONE,
            decreases n - i,
        {
            draws.push(draw_below(PROB_ONE));
            i = i + 1;
        }
        machine.step_with_draws(&draws);
        proof {
            assert(stepped_with(*old(machine), *machine, draws@));
        }
    }
}

/// Advances every chain of a collection by one random tick each.
pub fn step_chains(machines: &mut Vec<MarkovChain>)
    requires
        forall|k: int| 0 <= k < old(machines)@.len() ==> (#[trigger] old(machines)@[k]).wf(),
    ensures
        final(machines)@.len() == old(machines)@.len(),
        forall|k: int|
            0 <= k < old(machines)@.len() ==> (#[trigger] final(machines)@[k]).wf()
                && spec_stepped(old(machines)@[k], final(machines)@[k]),
{
    let n = machines.len();
    let mut k: usize = 0;
    while k < n
        invariant
            n == machines@.len(),
            n == old(machines)@.len(),
            k <= n,
            forall|p: int| k <= p < n ==> #[trigger] machines@[p] == old(machines)@[p],
            forall|p: int| 0 <= p < n ==> (#[trigger] old(machines)@[p]).wf(),
            forall|p: int|
                0 <= p < k ==> (#[trigger] machines@[p]).wf() && spec_stepped(
                    old(machines)@[p],
                    machines@[p],
                ),
        decreases n - k,
    {
        let mut taken = MarkovChain::new();
        machines.set_and_swap(k, &mut taken);
        MarkovChain::step_chain(&mut taken);
        machines.set_and_swap(k, &mut taken);
        k = k + 1;
    }
}

/// The entries of a row-of-rows matrix, as a sequence of sequences.
pub open spec fn rows_view(s: Seq<Vec<u64>>) -> Seq<Seq<u64>> {
    s.map_values(|v: Vec<u64>| v@)
}

/// The transition matrix of a chain: entry `(i, j)` is the probability of
/// the transition from `i` onto `j`, zero when there is none.
pub open spec fn spec_matrix(c: MarkovChain) -> Seq<Seq<u64>> {
    Seq::new(c.states@.len(), |i: int| Seq::new(c.states@.len(), |j: int| c.spec_edge_prob(i, j)))
}

/// A list without a transition onto `j` contributes probability zero.
proof fn lemma_no_edge_zero(c: MarkovChain, cur: Option<usize>, j: int)
    requires
        !c.has_edge_from(cur, j),
    ensures
        c.edge_prob_from(cur, j) == 0,
    decreases (match cur {
        Some(i) => i as int + 1,
        None => 0,
    }),
{
    match cur {
        None => {},
        Some(i) => {
            if c.node_ok(i as int) {
                lemma_no_edge_zero(c, c.transitions@[i as int].next_outgoing_transition, j);
            }
        },
    }
}

/// Generates the transition matrix of the chain.
pub fn generate_transition_matrix(machine: &MarkovChain) -> (matrix: Vec<Vec<u64>>)
    requires
        machine.wf(),
    ensures
        matrix@.len() == machine.states@.len(),
        forall|i: int|
            0 <= i < matrix@.len() ==> (#[trigger] matrix@[i])@.len() == machine.states@.len(),
        forall|i: int, j: int|
            0 <= i < matrix@.len() && 0 <= j < matrix@.len() ==> (#[trigger] matrix@[i]@[j])
                == machine.spec_edge_prob(i, j),
        rows_view(matrix@) == spec_matrix(*machine),
{
    let n = machine.states.len();
    let mut matrix: Vec<Vec<u64>> = Vec::new();
    let mut i: usize = 0;
    while i < n
        invariant
            machine.wf(),
            n == machine.states@.len(),
            i <= n,
            matrix@.len() == i,
            forall|p: int| 0 <= p < i ==> (#[trigger] matrix@[p])@.len() == n,
            forall|p: int, j: int|
                0 <= p < i && 0 <= j < n ==> (#[trigger] matrix@[p]@[j]) == machine.spec_edge_prob(
                    p,
                    j,
                ),
        decreases n - i,
    {
        let row = transition_row(machine, i);
        matrix.push(row);
        i = i + 1;
    }
    proof {
        assert(rows_view(matrix@) =~~= spec_matrix(*machine));
    }
    matrix
}

/// The row `row` together with the unvisited rest of the walk at `cur`
/// accounts for the matrix entry of `source` onto `j`.
spec fn row_tracks(c: MarkovChain, source: int, cur: Option<usize>, row: Seq<u64>, j: int) -> bool {
    c.spec_edge_prob(source, j) == (if c.has_edge_from(cur, j) {
        c.edge_prob_from(cur, j)
    } else {
        row[j]
    })
}

/// One row of the transition matrix: the outgoing probabilities of `source`.
fn transition_row(machine: &MarkovChain, source: usize) -> (row: Vec<u64>)
    requires
        machine.wf(),
        (source as int) < machine.states@.len(),
    ensures
        row@.len() == machine.states@.len(),
        forall|j: int|
            0 <= j < row@.len() ==> (#[trigger] row@[j]) == machine.spec_edge_prob(source as int, j),
{
    let n = machine.states.len();
    let mut row: Vec<u64> = Vec::new();
    let mut z: usize = 0;
    while z < n
        invariant
            z <= n,
            row@.len() == z,
            forall|j: int| 0 <= j < z ==> (#[trigger] row@[j]) == 0u64,
        decreases n - z,
    {
        row.push(0);
        z = z + 1;
    }
    let mut cur: Option<usize> = machine.states[source].first_outgoing_transition;
    proof {
        assert forall|j: int| 0 <= j < n implies #[trigger] row_tracks(
            *machine,
            source as int,
            cur,
            row@,
            j,
        ) by {
            if !machine.has_edge_from(cur, j) {
                lemma_no_edge_zero(*machine, cur, j);
            }
        }
    }
    loop
        invariant
            machine.wf(),
            machine.head_ok(cur),
            n == machine.states@.len(),
            row@.len() == n,
            forall|j: int|
                0 <= j < n ==> #[trigger] row_tracks(*machine, source as int, cur, row@, j),
        ensures
            row@.len() == n,
            cur is None,
            forall|j: int|
                0 <= j < n ==> #[trigger] row_tracks(*machine, source as int, cur, row@, j),
        decreases (match cur {
            Some(i) => i as int + 1,
            None => 0int,
        }),
    {
        match cur {
            None => {
                break;
            },
            Some(t) => {
                assert(machine.wf_transition(t as int));
                let target = machine.transitions[t].target;
                let prob = machine.transitions[t].probability;
                let next = machine.transitions[t].next_outgoing_transition;
                let ghost prev_row = row@;
                let ghost prev_cur = cur;
                row.set(target, prob);
                cur = next;
                proof {
                    assert forall|j: int| 0 <= j < n implies #[trigger] row_tracks(
                        *machine,
                        source as int,
                        cur,
                        row@,
                        j,
                    ) by {
                        assert(row_tracks(*machine, source as int, prev_cur, prev_row, j));
                        assert(machine.has_edge_from(prev_cur, j) == (
                        machine.transitions@[t as int].target as int == j
                            || machine.has_edge_from(cur, j)));
                        assert(machine.edge_prob_from(prev_cur, j) == (if machine.has_edge_from(
                            cur,
                            j,
                        ) {
                            machine.edge_prob_from(cur, j)
                        } else if machine.transitions@[t as int].target as int == j {
                            machine.transitions@[t as int].probability
                        } else {
                            0u64
                        }));
                    }
                }
            },
        }
    }
    proof {
        assert forall|j: int| 0 <= j < n implies (#[trigger] row@[j]) == machine.spec_edge_prob(
            source as int,
            j,
        ) by {
            assert(row_tracks(*machine, source as int, cur, row@, j));
        }
    }
    row
}

/// Law: reading the matrix back out of a chain built from the probability
/// matrix `m` — one transition per entry, as `markov_machine` builds it —
/// reproduces `m` exactly.
pub proof fn lemma_matrix_round_trip(c: MarkovChain, m: Seq<Seq<u64>>)
    requires
        m.len() == c.states@.len(),
        forall|i: int| 0 <= i < m.len() ==> (#[trigger] m[i]).len() == m.len(),
        forall|i: int, j: int|
            0 <= i < m.len() && 0 <= j < m.len() ==> (#[trigger] c.spec_edge_prob(i, j)) == m[i][j],
    ensures
        spec_matrix(c) == m,
{
    assert(spec_matrix(c) =~~= m);
}

/// Builds a chain with `n` unnamed states and one transition for every
/// matrix entry, so that its transition matrix is exactly `matrix`.
pub fn markov_machine(n: usize, matrix: &Vec<Vec<u64>>) -> (c: MarkovChain)
    requires
        matrix@.len() == n,
        forall|i: int| 0 <= i < n ==> (#[trigger] matrix@[i])@.len() == n,
        forall|i: int, j: int|
            0 <= i < n && 0 <= j < n ==> (#[trigger] matrix@[i]@[j]) <= PROB_ONE,
    ensures
        c.wf(),
        c.states@.len() == n,
        forall|i: int, j: int| 0 <= i < n && 0 <= j < n ==> #[trigger] c.spec_has_edge(i, j),
        forall|i: int, j: int|
            0 <= i < n && 0 <= j < n ==> (#[trigger] c.spec_edge_prob(i, j)) == matrix@[i]@[j],
{
    let mut c = MarkovChain::new();
    let mut i: usize = 0;
    while i < n
        invariant
            c.wf(),
            i <= n,
            c.states@.len() == i,
            forall|s: int|
                0 <= s < i ==> (#[trigger] c.states@[s]).first_outgoing_transition is None,
        decreases n - i,
    {
        let _s = c.add_state(String::new());
        i = i + 1;
    }
    let mut i: usize = 0;
    while i < n
        invariant
            c.wf(),
            i <= n,
            n == c.states@.len(),
            matrix@.len() == n,
            forall|p: int| 0 <= p < n ==> (#[trigger] matrix@[p])@.len() == n,
            forall|p: int, q: int|
                0 <= p < n && 0 <= q < n ==> (#[trigger] matrix@[p]@[q]) <= PROB_ONE,
            forall|p: int, q: int|
                0 <= p < i && 0 <= q < n ==> #[trigger] c.spec_has_edge(p, q),
            forall|p: int, q: int|
                0 <= p < i && 0 <= q < n ==> (#[trigger] c.spec_edge_prob(p, q)) == matrix@[p]@[q],
            forall|p: int, q: int| i <= p < n && 0 <= q < n ==> !(#[trigger] c.spec_has_edge(p, q)),
        decreases n - i,
    {
        let mut j: usize = 0;
        while j < n
            invariant
                c.wf(),
                i < n,
                j <= n,
                n == c.states@.len(),
                matrix@.len() == n,
                forall|p: int| 0 <= p < n ==> (#[trigger] matrix@[p])@.len() == n,
                forall|p: int, q: int|
                    0 <= p < n && 0 <= q < n ==> (#[trigger] matrix@[p]@[q]) <= PROB_ONE,
                forall|p: int, q: int|
                    0 <= p < i && 0 <= q < n ==> #[trigger] c.spec_has_edge(p, q),
                forall|p: int, q: int|
                    0 <= p < i && 0 <= q < n ==> (#[trigger] c.spec_edge_prob(p, q))
                        == matrix@[p]@[q],
                forall|q: int| 0 <= q < j ==> #[trigger] c.spec_has_edge(i as int, q),
                forall|q: int|
                    0 <= q < j ==> (#[trigger] c.spec_edge_prob(i as int, q))
                        == matrix@[i as int]@[q],
                forall|q: int| j <= q < n ==> !(#[trigger] c.spec_has_edge(i as int, q)),
                forall|p: int, q: int|
                    i < p < n && 0 <= q < n ==> !(#[trigger] c.spec_has_edge(p, q)),
            decreases n - j,
        {
            let _r = c.add_transition(i, j, matrix[i][j]);
            proof {
                assert(_r is Ok);
            }
            j = j + 1;
        }
        i = i + 1;
    }
    c
}

/// The pre-built three-state machine chain — "Idle", "Working", "Broken" —
/// with a one-percent chance of breaking per tick.
pub fn default_machine_chain() -> (c: MarkovChain)
    ensures
        c.wf(),
        c.states@.len() == 3,
        c.states@[0].name@ == "Idle"@,
        c.states@[1].name@ == "Working"@,
        c.states@[2].name@ == "Broken"@,
        c.spec_successors(0) == seq![2usize, 1usize],
        c.spec_successors(1) == seq![0usize, 2usize],
        c.spec_successors(2) == seq![1usize, 0usize],
        c.spec_edge_prob(0, 1) == 990_000_000u64,
        c.spec_edge_prob(0, 2) == 10_000_000u64,
        c.spec_edge_prob(1, 2) == 10_000_000u64,
        c.spec_edge_prob(1, 0) == 990_000_000u64,
        c.spec_edge_prob(2, 0) == 500_000_000u64,
        c.spec_edge_prob(2, 1) == 500_000_000u64,
        !c.spec_has_edge(0, 0) && !c.spec_has_edge(1, 1) && !c.spec_has_edge(2, 2),
{
    let mut c = MarkovChain::new();
    let _i0 = c.add_state("Idle".to_owned());
    let _i1 = c.add_state("Working".to_owned());
    let _i2 = c.add_state("Broken".to_owned());
    let _r1 = c.add_transition(0, 1, 990_000_000);
    let _r2 = c.add_transition(0, 2, 10_000_000);
    let _r3 = c.add_transition(1, 2, 10_000_000);
    let _r4 = c.add_transition(1, 0, 990_000_000);
    let _r5 = c.add_transition(2, 0, 500_000_000);
    let _r6 = c.add_transition(2, 1, 500_000_000);
    proof {
        assert(c.spec_successors(0) =~= seq![2usize, 1usize]);
        assert(c.spec_successors(1) =~= seq![0usize, 2usize]);
        assert(c.spec_successors(2) =~= seq![1usize, 0usize]);
    }
    c
}

/// One row of a random transition matrix: an independent uniform draw,
/// strictly below the fixed-point 1, for every outgoing edge of `source`;
/// zero where there is no edge.
fn random_row(machine: &MarkovChain, source: usize) -> (row: Vec<u64>)
    requires
        machine.wf(),
        (source as int) < machine.states@.len(),
    ensures
        row@.len() == machine.states@.len(),
        forall|j: int|
            0 <= j < row@.len() && !machine.spec_has_edge(source as int, j) ==> (#[trigger] row@[j])
                == 0u64,
        forall|j: int| 0 <= j < row@.len() ==> (#[trigger] row@[j]) < PROB_ONE,
{
    let n = machine.states.len();
    let mut row: Vec<u64> = Vec::new();
    let mut z: usize = 0;
    while z < n
        invariant
            z <= n,
            row@.len() == z,
            forall|j: int| 0 <= j < z ==> (#[trigger] row@[j]) == 0u64,
        decreases n - z,
    {
        row.push(0);
        z = z + 1;
    }
    let mut cur: Option<usize> = machine.states[source].first_outgoing_transition;
    loop
        invariant
            machine.wf(),
            machine.head_ok(cur),
            n == machine.states@.len(),
            row@.len() == n,
            forall|j: int|
                machine.has_edge_from(cur, j) ==> #[trigger] machine.spec_has_edge(source as int, j),
            forall|j: int|
                0 <= j < n && !machine.spec_has_edge(source as int, j) ==> (#[trigger] row@[j])
                    == 0u64,
            forall|j: int| 0 <= j < n ==> (#[trigger] row@[j]) < PROB_ONE,
        ensures
            row@.len() == n,
            forall|j: int|
                0 <= j < n && !machine.spec_has_edge(source as int, j) ==> (#[trigger] row@[j])
                    == 0u64,
            forall|j: int| 0 <= j < n ==> (#[trigger] row@[j]) < PROB_ONE,
        decreases (match cur {
            Some(i) => i as int + 1,
            None => 0int,
        }),
    {
        match cur {
            None => {
                break;
            },
            Some(t) => {
                assert(machine.wf_transition(t as int));
                let target = machine.transitions[t].target;
                let next = machine.transitions[t].next_outgoing_transition;
                let ghost prev_cur = cur;
                assert(machine.spec_has_edge(source as int, target as int));
                row.set(target, draw_below(PROB_ONE));
                cur = next;
                proof {
                    assert forall|j: int| machine.has_edge_from(cur, j) implies #[trigger] machine.spec_has_edge(
                        source as int,
                        j,
                    ) by {
                        assert(machine.has_edge_from(prev_cur, j));
                    }
                }
            },
        }
    }
    row
}

/// Assigns an independent uniform-random probability, strictly below the
/// fixed-point 1, to every existing edge, without renormalizing; entries
/// without an edge are zero. The chain itself is left unchanged.
pub fn random_transition_matrix(machine: &mut MarkovChain) -> (matrix: Vec<Vec<u64>>)
    requires
        old(machine).wf(),
    ensures
        *final(machine) == *old(machine),
        matrix@.len() == old(machine).states@.len(),
        forall|i: int|
            0 <= i < matrix@.len() ==> (#[trigger] matrix@[i])@.len() == old(machine).states@.len(),
        forall|i: int, j: int|
            0 <= i < matrix@.len() && 0 <= j < matrix@.len() && !old(machine).spec_has_edge(i, j)
                ==> (#[trigger] matrix@[i]@[j]) == 0u64,
        forall|i: int, j: int|
            0 <= i < matrix@.len() && 0 <= j < matrix@.len() ==> (#[trigger] matrix@[i]@[j])
                < PROB_ONE,
{
    let n = machine.states.len();
    let mut matrix: Vec<Vec<u64>> = Vec::new();
    let mut i: usize = 0;
    while i < n
        invariant
            machine.wf(),
            *machine == *old(machine),
            n == machine.states@.len(),
            i <= n,
            matrix@.len() == i,
            forall|p: int| 0 <= p < i ==> (#[trigger] matrix@[p])@.len() == n,
            forall|p: int, j: int|
                0 <= p < i && 0 <= j < n && !machine.spec_has_edge(p, j) ==> (
                #[trigger] matrix@[p]@[j]) == 0u64,
            forall|p: int, j: int|
                0 <= p < i && 0 <= j < n ==> (#[trigger] matrix@[p]@[j]) < PROB_ONE,
        decreases n - i,
    {
        let row = random_row(machine, i);
        matrix.push(row);
        i = i + 1;
    }
    matrix
}

/// In how many of the given trials slot `i` steps onto `j`, each trial being
/// one synchronous tick decided by its own draw vector.
pub open spec fn trial_count(c: MarkovChain, i: int, j: int, draws: Seq<Seq<u64>>) -> nat
    decreases draws.len(),
{
    if draws.len() == 0 {
        0
    } else {
        trial_count(c, i, j, draws.drop_last()) + (if c.spec_step_target(
            i,
            draws.last()[i] as int,
        ) == j {
            1nat
        } else {
            0nat
        })
    }
}

/// A count over trials never exceeds the number of trials.
pub proof fn lemma_trial_count_le(c: MarkovChain, i: int, j: int, draws: Seq<Seq<u64>>)
    ensures
        trial_count(c, i, j, draws) <= draws.len(),
    decreases draws.len(),
{
    if draws.len() > 0 {
        lemma_trial_count_le(c, i, j, draws.drop_last());
    }
}

/// Adds one to the cell `(i, j)` of a row-of-rows matrix.
fn bump_cell(m: &mut Vec<Vec<u64>>, i: usize, j: usize)
    requires
        (i as int) < old(m)@.len(),
        (j as int) < old(m)@[i as int]@.len(),
        old(m)@[i as int]@[j as int] < u64::MAX,
    ensures
        final(m)@.len() == old(m)@.len(),
        forall|p: int| 0 <= p < old(m)@.len() && p != i as int ==> final(m)@[p] == old(m)@[p],
        final(m)@[i as int]@ == old(m)@[i as int]@.update(
            j as int,
            (old(m)@[i as int]@[j as int] + 1) as u64,
        ),
{
    let mut row: Vec<u64> = Vec::new();
    m.set_and_swap(i, &mut row);
    let v = row[j];
    row.set(j, v + 1);
    m.set_and_swap(i, &mut row);
    proof {
        assert(m@ =~= old(m)@.update(i as int, m@[i as int]));
    }
}

/// Runs one independent one-tick trial per draw vector and returns, for each
/// `(i, j)`, the fraction of trials in which slot `i` stepped onto `j`, as a
/// fixed-point fraction of `PROB_ONE` (rounded down).
pub fn monte_carlo_with(machine: &MarkovChain, draws: &Vec<Vec<u64>>) -> (matrix: Vec<Vec<u64>>)
    requires
        machine.wf(),
        draws@.len() >= 1,
        forall|k: int|
            0 <= k < draws@.len() ==> (#[trigger] draws@[k])@.len() == machine.states@.len(),
    ensures
        matrix@.len() == machine.states@.len(),
        forall|i: int|
            0 <= i < matrix@.len() ==> (#[trigger] matrix@[i])@.len() == machine.states@.len(),
        forall|i: int, j: int|
            0 <= i < matrix@.len() && 0 <= j < matrix@.len() ==> (#[trigger] matrix@[i]@[j]) as int
                == trial_count(*machine, i, j, rows_view(draws@)) * (PROB_ONE as int) / (
            draws@.len() as int),
{
    let n = machine.states.len();
    let trials = draws.len();
    let ghost d = rows_view(draws@);
    let mut counts: Vec<Vec<u64>> = Vec::new();
    let mut z: usize = 0;
    while z < n
        invariant
            z <= n,
            counts@.len() == z,
            forall|p: int| 0 <= p < z ==> (#[trigger] counts@[p])@.len() == n,
            forall|p: int, j: int| 0 <= p < z && 0 <= j < n ==> (#[trigger] counts@[p]@[j]) == 0u64,
        decreases n - z,
    {
        let mut row: Vec<u64> = Vec::new();
        let mut y: usize = 0;
        while y < n
            invariant
                y <= n,
                row@.len() == y,
                forall|j: int| 0 <= j < y ==> (#[trigger] row@[j]) == 0u64,
            decreases n - y,
        {
            row.push(0);
            y = y + 1;
        }
        counts.push(row);
        z = z + 1;
    }
    let mut k: usize = 0;
    while k < trials
        invariant
            machine.wf(),
            n == machine.states@.len(),
            trials == draws@.len(),
            d == rows_view(draws@),
            trials >= 1,
            forall|k2: int| 0 <= k2 < trials ==> (#[trigger] draws@[k2])@.len() == n,
            k <= trials,
            counts@.len() == n,
            forall|p: int| 0 <= p < n ==> (#[trigger] counts@[p])@.len() == n,
            forall|i2: int, j2: int|
                0 <= i2 < n && 0 <= j2 < n ==> (#[trigger] counts@[i2]@[j2]) as int == trial_count(
                    *machine,
                    i2,
                    j2,
                    d.take(k as int),
                ),
        decreases trials - k,
    {
        let mut i: usize = 0;
        while i < n
            invariant
                machine.wf(),
                n == machine.states@.len(),
                trials == draws@.len(),
                d == rows_view(draws@),
                k < trials,
                forall|k2: int| 0 <= k2 < trials ==> (#[trigger] draws@[k2])@.len() == n,
                i <= n,
                counts@.len() == n,
                forall|p: int| 0 <= p < n ==> (#[trigger] counts@[p])@.len() == n,
                forall|i2: int, j2: int|
                    0 <= i2 < n && 0 <= j2 < n ==> (#[trigger] counts@[i2]@[j2]) as int
                        == trial_count(*machine, i2, j2, d.take(k as int)) + (if i2 < i
                        && machine.spec_step_target(i2, d[k as int][i2] as int) == j2 {
                        1int
                    } else {
                        0int
                    }),
            decreases n - i,
        {
            let draw: u64 = draws[k][i];
            let tgt: usize = match machine.choose_transition(i, draw) {
                Some(t) => t,
                None => i,
            };
            proof {
                assert(d[k as int] == draws@[k as int]@);
                assert(tgt as int == machine.spec_step_target(i as int, d[k as int][i as int] as int));
                lemma_trial_count_le(*machine, i as int, tgt as int, d.take(k as int));
                assert(d.take(k as int).len() == k);
            }
            bump_cell(&mut counts, i, tgt);
            i = i + 1;
        }
        proof {
            assert(d.take(k as int + 1).drop_last() =~= d.take(k as int));
            assert(d.take(k as int + 1).last() == d[k as int]);
            assert forall|i2: int, j2: int| 0 <= i2 < n && 0 <= j2 < n implies (
            #[trigger] counts@[i2]@[j2]) as int == trial_count(
                *machine,
                i2,
                j2,
                d.take(k as int + 1),
            ) by {
                assert(trial_count(*machine, i2, j2, d.take(k as int + 1)) == trial_count(
                    *machine,
                    i2,
                    j2,
                    d.take(k as int),
                ) + (if machine.spec_step_target(i2, d[k as int][i2] as int) == j2 {
                    1nat
                } else {
                    0nat
                }));
            }
        }
        k = k + 1;
    }
    proof {
        assert(d.take(trials as int) =~= d);
    }
    let mut matrix: Vec<Vec<u64>> = Vec::new();
    let mut i: usize = 0;
    while i < n
        invariant
            machine.wf(),
            n == machine.states@.len(),
            trials == draws@.len(),
            d == rows_view(draws@),
            trials >= 1,
            i <= n,
            counts@.len() == n,
            forall|p: int| 0 <= p < n ==> (#[trigger] counts@[p])@.len() == n,
            forall|i2: int, j2: int|
                0 <= i2 < n && 0 <= j2 < n ==> (#[trigger] counts@[i2]@[j2]) as int == trial_count(
                    *machine,
                    i2,
                    j2,
                    d,
                ),
            matrix@.len() == i,
            forall|p: int| 0 <= p < i ==> (#[trigger] matrix@[p])@.len() == n,
            forall|p: int, j2: int|
                0 <= p < i && 0 <= j2 < n ==> (#[trigger] matrix@[p]@[j2]) as int == trial_count(
                    *machine,
                    p,
                    j2,
                    d,
                ) * (PROB_ONE as int) / (trials as int),
        decreases n - i,
    {
        let mut row: Vec<u64> = Vec::new();
        let mut j: usize = 0;
        while j < n
            invariant
                machine.wf(),
                n == machine.states@.len(),
                trials == draws@.len(),
                d == rows_view(draws@),
                trials >= 1,
                i < n,
                j <= n,
                counts@.len() == n,
                forall|p: int| 0 <= p < n ==> (#[trigger] counts@[p])@.len() == n,
                forall|i2: int, j2: int|
                    0 <= i2 < n && 0 <= j2 < n ==> (#[trigger] counts@[i2]@[j2]) as int
                        == trial_count(*machine, i2, j2, d),
                row@.len() == j,
                forall|j2: int|
                    0 <= j2 < j ==> (#[trigger] row@[j2]) as int == trial_count(
                        *machine,
                        i as int,
                        j2,
                        d,
                    ) * (PROB_ONE as int) / (trials as int),
            decreases n - j,
        {
            let c64: u64 = counts[i][j];
            proof {
                lemma_trial_count_le(*machine, i as int, j as int, d);
                vstd::arithmetic::mul::lemma_mul_inequality(
                    c64 as int,
                    trials as int,
                    PROB_ONE as int,
                );
                vstd::arithmetic::div_mod::lemma_div_is_ordered(
                    c64 as int * PROB_ONE as int,
                    trials as int * PROB_ONE as int,
                    trials as int,
                );
                vstd::arithmetic::div_mod::lemma_div_multiples_vanish(
                    PROB_ONE as int,
                    trials as int,
                );
                vstd::arithmetic::mul::lemma_mul_inequality(
                    c64 as int,
                    u64::MAX as int,
                    PROB_ONE as int,
                );
            }
            let scaled: u128 = (c64 as u128) * (PROB_ONE as u128) / (trials as u128);
            row.push(scaled as u64);
            j = j + 1;
        }
        matrix.push(row);
        i = i + 1;
    }
    matrix
}

/// A result matrix that some sequence of per-trial uniform draws explains:
/// each entry is the fraction of trials, in fixed point, in which the slot
/// stepped onto the column's state.
pub open spec fn monte_carlo_result(
    c: MarkovChain,
    draws: Seq<Seq<u64>>,
    result: Seq<Seq<u64>>,
) -> bool {
    &&& draws.len() >= 1
    &&& forall|k: int| 0 <= k < draws.len() ==> (#[trigger] draws[k]).len() == c.states@.len()
    &&& forall|k: int, i: int|
        0 <= k < draws.len() && 0 <= i < c.states@.len() ==> (#[trigger] draws[k][i]) < PROB_ONE
    &&& result.len() == c.states@.len()
    &&& forall|i: int| 0 <= i < result.len() ==> (#[trigger] result[i]).len() == c.states@.len()
    &&& forall|i: int, j: int|
        0 <= i < result.len() && 0 <= j < result.len() ==> (#[trigger] result[i][j]) as int
            == trial_count(c, i, j, draws) * (PROB_ONE as int) / (draws.len() as int)
}

/// Runs `m` independent one-tick trials of the chain and returns the
/// empirical transition matrix in fixed point. `n` is accepted for interface
/// symmetry with multi-step extensions; a single randomized selection per
/// trial is the behavior. The chain itself is left unchanged.
pub fn monte_carlo(machine: &mut MarkovChain, n: usize, m: usize) -> (matrix: Vec<Vec<u64>>)
    requires
        old(machine).wf(),
        m >= 1,
    ensures
        *final(machine) == *old(machine),
        matrix@.len() == old(machine).states@.len(),
        forall|i: int|
            0 <= i < matrix@.len() ==> (#[trigger] matrix@[i])@.len() == old(machine).states@.len(),
        exists|draws: Seq<Seq<u64>>|
            draws.len() == m && #[trigger] monte_carlo_result(
                *old(machine),
                draws,
                rows_view(matrix@),
            ),
{
    let states = machine.states.len();
    let mut draws: Vec<Vec<u64>> = Vec::new();
    let mut k: usize = 0;
    while k < m
        invariant
            k <= m,
            draws@.len() == k,
            forall|p: int| 0 <= p < k ==> (#[trigger] draws@[p])@.len() == states,
            forall|p: int, i: int|
                0 <= p < k && 0 <= i < states ==> (#[trigger] draws@[p]@[i]) < PROB_ONE,
        decreases m - k,
    {
        let mut row: Vec<u64> = Vec::new();
        let mut i: usize = 0;
        while i < states
            invariant
                i <= states,
                row@.len() == i,
                forall|q: int| 0 <= q < i ==> (#[trigger] row@[q]) < PROB_ONE,
            decreases states - i,
        {
            row.push(draw_below(PROB_ONE));
            i = i + 1;
        }
        draws.push(row);
        k = k + 1;
    }
    let matrix = monte_carlo_with(machine, &draws);
    proof {
        assert forall|k2: int, i: int|
            0 <= k2 < m && 0 <= i < machine.states@.len() implies (#[trigger] rows_view(
            draws@,
        )[k2][i]) < PROB_ONE by {
            assert(draws@[k2]@[i] < PROB_ONE);
        }
        assert(monte_carlo_result(*machine, rows_view(draws@), rows_view(matrix@)));
    }
    matrix
}

/// The targets of the recorded transition additions whose source is `s`, in
/// reverse order of addition: each addition records `(source, target)`.
pub open spec fn successors_of_adds(adds: Seq<(usize, usize)>, s: int) -> Seq<usize>
    decreases adds.len(),
{
    if adds.len() == 0 {
        Seq::empty()
    } else {
        let rest = successors_of_adds(adds.drop_last(), s);
        if adds.last().0 as int == s {
            seq![adds.last().1] + rest
        } else {
            rest
        }
    }
}

/// Law: `successors` enumerates exactly the targets of the transitions added
/// with that source, newest first (LIFO), and nothing else. A chain whose
/// successor lists match the record `adds` keeps that shape across one more
/// `add_transition(source, target, _)`, whose contract prepends `target` to
/// `source`'s list and leaves every other list alone; a fresh chain matches
/// the empty record, where every list is empty.
pub proof fn lemma_successors_lifo(
    pre: MarkovChain,
    post: MarkovChain,
    adds: Seq<(usize, usize)>,
    source: usize,
    target: usize,
)
    requires
        forall|s: int| #[trigger] pre.spec_successors(s) == successors_of_adds(adds, s),
        post.spec_successors(source as int) == seq![target] + pre.spec_successors(source as int),
        forall|s: int| #![trigger post.spec_successors(s)]
            s != source as int ==> post.spec_successors(s) == pre.spec_successors(s),
    ensures
        forall|s: int| #[trigger] post.spec_successors(s) == successors_of_adds(
            adds.push((source, target)),
            s,
        ),
{
    let adds2 = adds.push((source, target));
    assert(adds2.drop_last() =~= adds);
    assert forall|s: int| #[trigger] post.spec_successors(s) == successors_of_adds(adds2, s) by {
        assert(pre.spec_successors(s) == successors_of_adds(adds, s));
        if s == source as int {
            assert(successors_of_adds(adds2, s) == seq![target] + successors_of_adds(adds, s));
        }
    }
}

} // verus!
