//! The runtime rewriting engine.
//!
//! An [`LSystem`] holds the arena, the axiom, a complete rule map (one
//! successor sequence per stored token), the current generation's sequence
//! and a generation counter.  A step rewrites every symbol of the current
//! sequence in parallel through the rule map and concatenates the successor
//! sequences in order.

use vstd::prelude::*;

use crate::arena::{valid_ids, Arena};
use crate::builder::{render_tokens, spec_render};
use crate::token::{Token, TokenId};

verus! {

/// One parallel rewriting step: every symbol of `s`, in order, is replaced
/// by its successor sequence from `rules` (indexed by the symbol's 7-bit
/// index) and the results are concatenated.
pub open spec fn spec_step(rules: Seq<Seq<TokenId>>, s: Seq<TokenId>) -> Seq<TokenId>
    decreases s.len(),
{
    if s.len() == 0 {
        Seq::empty()
    } else {
        spec_step(rules, s.drop_last()) + rules[s.last().spec_value()]
    }
}

/// `n` sequential applications of [`spec_step`].
pub open spec fn spec_step_n(rules: Seq<Seq<TokenId>>, s: Seq<TokenId>, n: nat) -> Seq<TokenId>
    decreases n,
{
    if n == 0 {
        s
    } else {
        spec_step(rules, spec_step_n(rules, s, (n - 1) as nat))
    }
}

/// Rewriting a sequence whose symbols all carry the identity rule
/// (`id -> [id]`) reproduces the sequence unchanged: tokens without an
/// explicit production rule are constants.
pub proof fn lemma_identity_rules_fixpoint(rules: Seq<Seq<TokenId>>, s: Seq<TokenId>)
    requires
        forall|k: int| 0 <= k < s.len() ==> (#[trigger] s[k]).spec_value() < rules.len()
            && rules[s[k].spec_value()] == seq![s[k]],
    ensures
        spec_step(rules, s) == s,
    decreases s.len(),
{
    if s.len() > 0 {
        lemma_identity_rules_fixpoint(rules, s.drop_last());
        assert(spec_step(rules, s) =~= s);
    }
}

/// Advancing by `m + n` steps is advancing by `m` steps and then by `n`
/// steps: a multi-step advancement agrees with the same number of single
/// steps applied sequentially.
pub proof fn lemma_step_by_composes(rules: Seq<Seq<TokenId>>, s: Seq<TokenId>, m: nat, n: nat)
    ensures
        spec_step_n(rules, s, m + n) == spec_step_n(rules, spec_step_n(rules, s, m), n),
    decreases n,
{
    if n > 0 {
        lemma_step_by_composes(rules, s, m, (n - 1) as nat);
    }
}

/// A step through a rule map whose entries hold only valid identifiers
/// yields only valid identifiers.
proof fn lemma_spec_step_valid(rules: Seq<Seq<TokenId>>, s: Seq<TokenId>, len: int)
    requires
        rules.len() == len,
        valid_ids(len, s),
        forall|i: int| 0 <= i < rules.len() ==> valid_ids(len, #[trigger] rules[i]),
    ensures
        valid_ids(len, spec_step(rules, s)),
    decreases s.len(),
{
    if s.len() > 0 {
        assert(valid_ids(len, s.drop_last()));
        lemma_spec_step_valid(rules, s.drop_last(), len);
        assert(s.last() == s[s.len() - 1]);
        assert(valid_ids(len, rules[s.last().spec_value()]));
    }
}

/// A constructed rewriting engine.  The arena, axiom and rule map are
/// immutable for its lifetime; `reset`, `step` and `step_by` replace the
/// current sequence wholesale.
#[derive(Debug)]
pub struct LSystem {
    arena: Arena,
    axiom_seq: Vec<TokenId>,
    rules: Vec<Vec<TokenId>>,
    state: Vec<TokenId>,
    steps: usize,
}

impl LSystem {
    /// The stored tokens, by index.
    pub closed spec fn spec_tokens(self) -> Seq<Token> {
        self.arena@
    }

    /// The initial sequence.
    pub closed spec fn spec_axiom(self) -> Seq<TokenId> {
        self.axiom_seq@
    }

    /// The complete rule map: one successor sequence per stored token.
    pub closed spec fn spec_rules(self) -> Seq<Seq<TokenId>> {
        self.rules@.map_values(|v: Vec<TokenId>| v@)
    }

    /// The current generation's sequence.
    pub closed spec fn spec_state(self) -> Seq<TokenId> {
        self.state@
    }

    /// The number of steps since the last reset (or construction).
    pub closed spec fn spec_steps(self) -> int {
        self.steps as int
    }

    /// Construction guarantees totality: the rule map covers every stored
    /// token, and every identifier in the axiom, the rule map and the
    /// current sequence resolves in the arena.
    pub open spec fn wf(self) -> bool {
        &&& self.spec_tokens().len() <= 128
        &&& self.spec_rules().len() == self.spec_tokens().len()
        &&& valid_ids(self.spec_tokens().len() as int, self.spec_axiom())
        &&& valid_ids(self.spec_tokens().len() as int, self.spec_state())
        &&& forall|i: int| 0 <= i < self.spec_rules().len()
            ==> valid_ids(self.spec_tokens().len() as int, #[trigger] self.spec_rules()[i])
    }

    /// Assembles an engine from a validated arena, axiom and complete rule
    /// map; the current sequence starts as a copy of the axiom.
    pub(crate) fn new(arena: Arena, axiom_ids: Vec<TokenId>, rules: Vec<Vec<TokenId>>) -> (r:
        LSystem)
        requires
            arena.wf(),
            valid_ids(arena@.len() as int, axiom_ids@),
            rules@.len() == arena@.len(),
            forall|i: int| 0 <= i < rules@.len() ==> valid_ids(
                arena@.len() as int,
                (#[trigger] rules@[i])@,
            ),
        ensures
            r.wf(),
            r.spec_tokens() == arena@,
            r.spec_axiom() == axiom_ids@,
            r.spec_state() == axiom_ids@,
            r.spec_steps() == 0,
            r.spec_rules().len() == rules@.len(),
            forall|i: int| 0 <= i < rules@.len() ==> r.spec_rules()[i] == (#[trigger] rules@[i])@,
    {
        let state = crate::token::copy_ids(&axiom_ids);
        LSystem { arena, axiom_seq: axiom_ids, rules, state, steps: 0 }
    }

    /// Restores the current sequence to a copy of the axiom and the
    /// generation counter to 0, regardless of prior advancement.
    pub fn reset(&mut self)
        requires
            old(self).wf(),
        ensures
            final(self).wf(),
            final(self).spec_state() == final(self).spec_axiom(),
            final(self).spec_steps() == 0,
            final(self).spec_tokens() == old(self).spec_tokens(),
            final(self).spec_axiom() == old(self).spec_axiom(),
            final(self).spec_rules() == old(self).spec_rules(),
    {
        let state = crate::token::copy_ids(&self.axiom_seq);
        self.state = state;
        self.steps = 0;
    }

    /// Advances one generation: every symbol of the current sequence is
    /// mapped, in order, through the rule map and the successor sequences
    /// are concatenated.  Increments the generation counter.
    pub fn step(&mut self)
        requires
            old(self).wf(),
            old(self).spec_steps() < usize::MAX,
        ensures
            final(self).wf(),
            final(self).spec_state() == spec_step(old(self).spec_rules(), old(self).spec_state()),
            final(self).spec_steps() == old(self).spec_steps() + 1,
            final(self).spec_tokens() == old(self).spec_tokens(),
            final(self).spec_axiom() == old(self).spec_axiom(),
            final(self).spec_rules() == old(self).spec_rules(),
    {
        let mut next: Vec<TokenId> = Vec::new();
        let n: usize = self.state.len();
        let mut k: usize = 0;
        while k < n
            invariant
                self.wf(),
                n == self.spec_state().len(),
                0 <= k <= n,
                next@ == spec_step(self.spec_rules(), self.spec_state().subrange(0, k as int)),
            decreases n - k,
        {
            let id: TokenId = self.state[k];
            let idx: usize = id.value() as usize;
            let succ: &Vec<TokenId> = &self.rules[idx];
            let m: usize = succ.len();
            let mut t: usize = 0;
            while t < m
                invariant
                    self.wf(),
                    n == self.spec_state().len(),
                    0 <= k < n,
                    m == succ@.len(),
                    0 <= t <= m,
                    next@ == spec_step(self.spec_rules(), self.spec_state().subrange(0, k as int))
                        + succ@.subrange(0, t as int),
                decreases m - t,
            {
                next.push(succ[t]);
                t += 1;
                proof {
                    assert(succ@.subrange(0, t as int) =~= succ@.subrange(0, t - 1).push(
                        succ@[t - 1],
                    ));
                }
            }
            k += 1;
            proof {
                let s = self.spec_state();
                assert(s.subrange(0, k as int).drop_last() =~= s.subrange(0, k - 1));
                assert(succ@.subrange(0, m as int) =~= succ@);
                assert(succ@ == self.spec_rules()[s.subrange(0, k as int).last().spec_value()]);
            }
        }
        proof {
            assert(self.spec_state().subrange(0, n as int) =~= self.spec_state());
            lemma_spec_step_valid(
                self.spec_rules(),
                self.spec_state(),
                self.spec_tokens().len() as int,
            );
        }
        self.state = next;
        self.steps = self.steps + 1;
    }

    /// Calls [`LSystem::step`] exactly `n` times sequentially; `n = 0` is a
    /// no-op.
    pub fn step_by(&mut self, n: usize)
        requires
            old(self).wf(),
            old(self).spec_steps() + n <= usize::MAX,
        ensures
            final(self).wf(),
            final(self).spec_state() == spec_step_n(
                old(self).spec_rules(),
                old(self).spec_state(),
                n as nat,
            ),
            final(self).spec_steps() == old(self).spec_steps() + n,
            final(self).spec_tokens() == old(self).spec_tokens(),
            final(self).spec_axiom() == old(self).spec_axiom(),
            final(self).spec_rules() == old(self).spec_rules(),
    {
        let ghost orig = *self;
        let mut i: usize = 0;
        while i < n
            invariant
                self.wf(),
                0 <= i <= n,
                orig.spec_steps() + n <= usize::MAX,
                self.spec_steps() == orig.spec_steps() + i,
                self.spec_tokens() == orig.spec_tokens(),
                self.spec_axiom() == orig.spec_axiom(),
                self.spec_rules() == orig.spec_rules(),
                self.spec_state() == spec_step_n(orig.spec_rules(), orig.spec_state(), i as nat),
            decreases n - i,
        {
            self.step();
            i += 1;
        }
    }

    /// The count of steps since the last reset (or construction).
    pub fn steps(&self) -> (r: usize)
        ensures
            r as int == self.spec_steps(),
    {
        self.steps
    }

    /// Concatenates, in current-sequence order, each symbol's display name.
    pub fn render(&self) -> (r: String)
        requires
            self.wf(),
        ensures
            r@ == spec_render(self.spec_tokens(), self.spec_state()),
    {
        render_tokens(&self.arena, self.state.as_slice())
    }

    /// A read-only view of the current generation's sequence.
    pub fn get_state(&self) -> (r: &[TokenId])
        ensures
            r@ == self.spec_state(),
    {
        self.state.as_slice()
    }
}

} // verus!
