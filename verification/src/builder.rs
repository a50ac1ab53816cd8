//! The validating builder that assembles a consistent rule set.
//!
//! A builder accumulates tokens, at most one axiom and a list of production
//! rules, validating every identifier against its own arena before accepting
//! it.  `finish` folds the rules into a complete rule map — the first rule
//! registered for a predecessor wins, later duplicates are ignored, and every
//! token without an explicit rule receives the implicit identity rule — and
//! produces the immutable runtime engine.

use vstd::prelude::*;

use crate::arena::{valid_ids, Arena};
use crate::errors::LSystemError;
use crate::system::LSystem;
use crate::token::{copy_ids, has_space, param_of, spec_encode, Token, TokenId};

verus! {

broadcast use crate::token::lemma_spec_encode_code;

// ---------------------------------------------------------------------------
// Production rules
// ---------------------------------------------------------------------------

/// A predecessor and the ordered successor sequence it rewrites to.
#[derive(Debug)]
pub struct ProductionRule {
    predecessor: TokenId,
    successor: Vec<TokenId>,
}

impl ProductionRule {
    /// The symbol this rule rewrites.
    pub closed spec fn spec_predecessor(self) -> TokenId {
        self.predecessor
    }

    /// The sequence the predecessor is rewritten to.
    pub closed spec fn spec_successor(self) -> Seq<TokenId> {
        self.successor@
    }

    /// Pairs a predecessor with its successor sequence.
    pub fn new(predecessor: TokenId, successor: Vec<TokenId>) -> (r: ProductionRule)
        ensures
            r.spec_predecessor() == predecessor,
            r.spec_successor() == successor@,
    {
        ProductionRule { predecessor, successor }
    }
}

/// Whether a rule's predecessor and successor identifiers all carry indices
/// below `len`.
pub open spec fn rule_valid(len: int, r: ProductionRule) -> bool {
    &&& r.spec_predecessor().spec_value() < len
    &&& valid_ids(len, r.spec_successor())
}

/// The successor of the earliest rule of `rules` whose predecessor carries
/// index `idx`, if any: the first registered rule for a predecessor wins.
pub open spec fn first_rule_for(rules: Seq<ProductionRule>, idx: int) -> Option<Seq<TokenId>>
    decreases rules.len(),
{
    if rules.len() == 0 {
        None
    } else {
        match first_rule_for(rules.drop_last(), idx) {
            Some(s) => Some(s),
            None => if rules.last().spec_predecessor().spec_value() == idx {
                Some(rules.last().spec_successor())
            } else {
                None
            },
        }
    }
}

/// The complete rule map entry for index `idx`: the first registered rule
/// for that predecessor, or the implicit identity rule for a constant token.
pub open spec fn rule_map_at(tokens: Seq<Token>, rules: Seq<ProductionRule>, idx: int) -> Seq<
    TokenId,
> {
    match first_rule_for(rules, idx) {
        Some(s) => s,
        None => seq![spec_encode(idx, tokens[idx].spec_param() > 0)],
    }
}

/// The first registered rule for a predecessor is one of the registered
/// rules, so its successor identifiers are all valid.
proof fn lemma_first_rule_valid(rules: Seq<ProductionRule>, idx: int, len: int)
    requires
        forall|i: int| 0 <= i < rules.len() ==> rule_valid(len, #[trigger] rules[i]),
        first_rule_for(rules, idx) is Some,
    ensures
        valid_ids(len, first_rule_for(rules, idx).unwrap()),
    decreases rules.len(),
{
    if rules.len() > 0 {
        if first_rule_for(rules.drop_last(), idx) is Some {
            lemma_first_rule_valid(rules.drop_last(), idx, len);
        }
    }
}

/// Relation maintained while folding the registered rules into the map:
/// slot `k` holds the first registered rule for predecessor index `k` and is
/// marked seen, or still holds the identity rule and is not.
spec fn slot_matches(
    tokens: Seq<Token>,
    rules: Seq<ProductionRule>,
    k: int,
    entry: Seq<TokenId>,
    seen: bool,
) -> bool {
    match first_rule_for(rules, k) {
        Some(s) => seen && entry == s,
        None => !seen && entry == seq![spec_encode(k, tokens[k].spec_param() > 0)],
    }
}

// ---------------------------------------------------------------------------
// Validation errors
// ---------------------------------------------------------------------------

/// `e` names the first identifier of `ids` whose index is not below `len`.
pub open spec fn is_first_invalid_error(len: int, ids: Seq<TokenId>, e: LSystemError) -> bool {
    exists|i: int|
        0 <= i < ids.len() && (#[trigger] ids[i]).spec_value() >= len && (forall|j: int|
            0 <= j < i ==> (#[trigger] ids[j]).spec_value() < len) && e
            == LSystemError::InvalidTokenId(ids[i])
}

// ---------------------------------------------------------------------------
// Builder
// ---------------------------------------------------------------------------

/// Accumulates tokens, one optional axiom and a list of production rules,
/// and finalizes them into an [`LSystem`].
#[derive(Debug)]
pub struct LSystemBuilder {
    arena: Arena,
    axiom_seq: Option<Vec<TokenId>>,
    rules: Vec<ProductionRule>,
}

impl LSystemBuilder {
    /// The builder's arena.
    pub closed spec fn spec_arena(self) -> Arena {
        self.arena
    }

    /// The axiom, if one has been set.
    pub closed spec fn spec_axiom(self) -> Option<Seq<TokenId>> {
        match self.axiom_seq {
            Some(v) => Some(v@),
            None => None,
        }
    }

    /// The registered production rules, in registration order.
    pub closed spec fn spec_rules(self) -> Seq<ProductionRule> {
        self.rules@
    }

    /// Everything the builder has accepted was validated against its arena.
    pub open spec fn wf(self) -> bool {
        &&& self.spec_arena().wf()
        &&& (self.spec_axiom() matches Some(a) ==> valid_ids(
            self.spec_arena()@.len() as int,
            a,
        ))
        &&& forall|i: int| 0 <= i < self.spec_rules().len() ==> rule_valid(
            self.spec_arena()@.len() as int,
            #[trigger] self.spec_rules()[i],
        )
    }

    /// An empty builder: no tokens, no axiom, no rules.
    pub fn new() -> (r: LSystemBuilder)
        ensures
            r.wf(),
            r.spec_arena()@.len() == 0,
            r.spec_axiom() is None,
            r.spec_rules().len() == 0,
    {
        LSystemBuilder { arena: Arena::new(), axiom_seq: None, rules: Vec::new() }
    }

    /// Constructs a token from `name` and stores it, returning the
    /// identifier it was assigned.  Rejects a name containing a space with
    /// [`LSystemError::InvalidToken`], and a full arena with
    /// [`LSystemError::ArenaFull`]; both leave the builder unchanged.
    pub fn token(&mut self, name: &str) -> (r: Result<TokenId, LSystemError>)
        requires
            old(self).wf(),
        ensures
            final(self).wf(),
            has_space(name@) ==> (r matches Err(e) && (e matches LSystemError::InvalidToken(s)
                && s@ == name@) && *final(self) == *old(self)),
            !has_space(name@) && old(self).spec_arena()@.len() >= 128 ==> r == Err::<
                TokenId,
                LSystemError,
            >(LSystemError::ArenaFull) && *final(self) == *old(self),
            !has_space(name@) && old(self).spec_arena()@.len() < 128 ==> (r matches Ok(id)
                && id == spec_encode(old(self).spec_arena()@.len() as int, param_of(name@) > 0)
                && final(self).spec_arena()@.len() == old(self).spec_arena()@.len() + 1
                && final(self).spec_arena()@.drop_last() == old(self).spec_arena()@
                && final(self).spec_arena()@.last().spec_name() == name@
                && final(self).spec_arena()@.last().spec_param() == param_of(name@)
                && final(self).spec_arena()@.last().wf()
                && final(self).spec_axiom() == old(self).spec_axiom()
                && final(self).spec_rules() == old(self).spec_rules()),
    {
        match Token::new(name) {
            Err(e) => Err(e),
            Ok(t) => {
                match self.arena.push_token(t) {
                    Err(e) => Err(e),
                    Ok(id) => {
                        proof {
                            assert(self.spec_arena()@.drop_last() =~= old(self).spec_arena()@);
                            let len1 = old(self).spec_arena()@.len() as int;
                            let len2 = self.spec_arena()@.len() as int;
                            if self.spec_axiom() is Some {
                                crate::arena::lemma_valid_ids_monotone(
                                    len1,
                                    len2,
                                    self.spec_axiom().unwrap(),
                                );
                            }
                            assert forall|i2: int| 0 <= i2 < self.spec_rules().len()
                                implies rule_valid(len2, #[trigger] self.spec_rules()[i2]) by {
                                assert(rule_valid(len1, old(self).spec_rules()[i2]));
                                crate::arena::lemma_valid_ids_monotone(
                                    len1,
                                    len2,
                                    self.spec_rules()[i2].spec_successor(),
                                );
                            }
                        }
                        Ok(id)
                    },
                }
            },
        }
    }

    /// Checks every identifier of `ids` against the arena; reports the
    /// first invalid one.
    fn validate_ids(&self, ids: &[TokenId]) -> (r: Result<(), LSystemError>)
        requires
            self.spec_arena().wf(),
        ensures
            r is Ok <==> valid_ids(self.spec_arena()@.len() as int, ids@),
            r matches Err(e) ==> is_first_invalid_error(self.spec_arena()@.len() as int, ids@, e),
    {
        let mut i: usize = 0;
        while i < ids.len()
            invariant
                0 <= i <= ids@.len(),
                forall|j: int| 0 <= j < i ==> (#[trigger] ids@[j]).spec_value()
                    < self.spec_arena()@.len(),
            decreases ids@.len() - i,
        {
            let id = ids[i];
            if !self.arena.is_valid(&id) {
                return Err(LSystemError::InvalidTokenId(id));
            }
            i += 1;
        }
        Ok(())
    }

    /// Registers a production rule after validating the predecessor and
    /// every successor identifier against the arena.  The first invalid
    /// identifier is reported with [`LSystemError::InvalidTokenId`], leaving
    /// the builder unchanged.  Multiple rules for one predecessor are all
    /// accepted; the first one wins at finalization.
    pub fn production_rule(&mut self, predecessor: TokenId, successor: Vec<TokenId>) -> (r:
        Result<(), LSystemError>)
        requires
            old(self).wf(),
        ensures
            final(self).wf(),
            predecessor.spec_value() >= old(self).spec_arena()@.len() ==> r == Err::<
                (),
                LSystemError,
            >(LSystemError::InvalidTokenId(predecessor)) && *final(self) == *old(self),
            predecessor.spec_value() < old(self).spec_arena()@.len() && !valid_ids(
                old(self).spec_arena()@.len() as int,
                successor@,
            ) ==> (r matches Err(e) && is_first_invalid_error(
                old(self).spec_arena()@.len() as int,
                successor@,
                e,
            ) && *final(self) == *old(self)),
            predecessor.spec_value() < old(self).spec_arena()@.len() && valid_ids(
                old(self).spec_arena()@.len() as int,
                successor@,
            ) ==> r == Ok::<(), LSystemError>(())
                && final(self).spec_rules().len() == old(self).spec_rules().len() + 1
                && final(self).spec_rules().drop_last() == old(self).spec_rules()
                && final(self).spec_rules().last().spec_predecessor() == predecessor
                && final(self).spec_rules().last().spec_successor() == successor@
                && final(self).spec_arena() == old(self).spec_arena()
                && final(self).spec_axiom() == old(self).spec_axiom(),
    {
        if !self.arena.is_valid(&predecessor) {
            return Err(LSystemError::InvalidTokenId(predecessor));
        }
        match self.validate_ids(successor.as_slice()) {
            Err(e) => Err(e),
            Ok(()) => {
                self.rules.push(ProductionRule::new(predecessor, successor));
                proof {
                    assert(self.spec_rules().drop_last() =~= old(self).spec_rules());
                }
                Ok(())
            },
        }
    }

    /// Validates every identifier of `axiom` against the arena and stores
    /// the sequence as the axiom, overwriting any previous one.  The first
    /// invalid identifier is reported with [`LSystemError::InvalidTokenId`],
    /// leaving the builder unchanged.
    pub fn set_axiom(&mut self, axiom_ids: Vec<TokenId>) -> (r: Result<(), LSystemError>)
        requires
            old(self).wf(),
        ensures
            final(self).wf(),
            valid_ids(old(self).spec_arena()@.len() as int, axiom_ids@) ==> r == Ok::<
                (),
                LSystemError,
            >(()) && final(self).spec_axiom() == Some(axiom_ids@)
                && final(self).spec_arena() == old(self).spec_arena()
                && final(self).spec_rules() == old(self).spec_rules(),
            !valid_ids(old(self).spec_arena()@.len() as int, axiom_ids@) ==> (r matches Err(e)
                && is_first_invalid_error(old(self).spec_arena()@.len() as int, axiom_ids@, e)
                && *final(self) == *old(self)),
    {
        match self.validate_ids(axiom_ids.as_slice()) {
            Err(e) => Err(e),
            Ok(()) => {
                self.axiom_seq = Some(axiom_ids);
                proof {
                    assert forall|i: int| 0 <= i < self.spec_rules().len() implies rule_valid(
                        self.spec_arena()@.len() as int,
                        #[trigger] self.spec_rules()[i],
                    ) by {
                        assert(rule_valid(
                            old(self).spec_arena()@.len() as int,
                            old(self).spec_rules()[i],
                        ));
                    }
                }
                Ok(())
            },
        }
    }

    /// Consumes the builder and produces the rewriting engine.  Fails with
    /// [`LSystemError::MissingAxiom`] when no axiom was ever set.  Otherwise
    /// the engine's rule map holds, for every stored token, the first rule
    /// registered for it, or the implicit identity rule `id -> [id]` when
    /// none was: every token contributes exactly one entry.
    pub fn finish(self) -> (r: Result<LSystem, LSystemError>)
        requires
            self.wf(),
        ensures
            self.spec_axiom() is None ==> r == Err::<LSystem, LSystemError>(
                LSystemError::MissingAxiom,
            ),
            self.spec_axiom() matches Some(a) ==> (r matches Ok(sys) && sys.wf()
                && sys.spec_tokens() == self.spec_arena()@
                && sys.spec_axiom() == a
                && sys.spec_state() == a
                && sys.spec_steps() == 0
                && sys.spec_rules().len() == self.spec_arena()@.len()
                && (forall|i: int| 0 <= i < self.spec_arena()@.len()
                    ==> sys.spec_rules()[i] == rule_map_at(
                    self.spec_arena()@,
                    self.spec_rules(),
                    i,
                ))),
    {
        let LSystemBuilder { arena, axiom_seq, rules } = self;
        proof {
            assert(arena == self.spec_arena());
            assert(rules@ == self.spec_rules());
        }
        let axiom_vec: Vec<TokenId> = match axiom_seq {
            Some(v) => v,
            None => {
                return Err(LSystemError::MissingAxiom);
            },
        };
        let n: usize = arena.len() as usize;

        // Prefill every slot with the implicit identity rule.
        let mut map: Vec<Vec<TokenId>> = Vec::new();
        let mut seen: Vec<bool> = Vec::new();
        let mut i: usize = 0;
        while i < n
            invariant
                arena.wf(),
                n == arena@.len(),
                0 <= i <= n,
                map@.len() == i as int,
                seen@.len() == i as int,
                forall|k: int| 0 <= k < i ==> (#[trigger] map@[k])@ == seq![
                    spec_encode(k, arena@[k].spec_param() > 0),
                ],
                forall|k: int| 0 <= k < i ==> !(#[trigger] seen@[k]),
            decreases n - i,
        {
            let t = arena.token_at(i);
            let id = TokenId::new(i as u8, t.param() > 0);
            let mut entry: Vec<TokenId> = Vec::new();
            entry.push(id);
            proof {
                assert(entry@ =~= seq![spec_encode(i as int, arena@[i as int].spec_param() > 0)]);
            }
            map.push(entry);
            seen.push(false);
            i += 1;
        }

        // Fold in the registered rules: the first rule per predecessor wins,
        // later duplicates are ignored.
        let m: usize = rules.len();
        let mut j: usize = 0;
        while j < m
            invariant
                arena.wf(),
                n == arena@.len(),
                m == rules@.len(),
                0 <= j <= m,
                map@.len() == n as int,
                seen@.len() == n as int,
                forall|k: int| 0 <= k < rules@.len() ==> rule_valid(
                    n as int,
                    #[trigger] rules@[k],
                ),
                forall|k: int| 0 <= k < n ==> slot_matches(
                    arena@,
                    rules@.subrange(0, j as int),
                    k,
                    (#[trigger] map@[k])@,
                    seen@[k],
                ),
            decreases m - j,
        {
            let ghost map0 = map@;
            let ghost seen0 = seen@;
            let rr: &ProductionRule = &rules[j];
            let pred_idx: usize = rr.predecessor.value() as usize;
            assert(pred_idx < n);
            if !seen[pred_idx] {
                let succ = copy_ids(&rr.successor);
                map[pred_idx] = succ;
                seen[pred_idx] = true;
            }
            j += 1;
            proof {
                let prev = rules@.subrange(0, j - 1);
                let cur = rules@.subrange(0, j as int);
                assert(cur.drop_last() =~= prev);
                assert(cur.last() == rules@[j - 1]);
                assert forall|k: int| 0 <= k < n implies slot_matches(
                    arena@,
                    cur,
                    k,
                    (#[trigger] map@[k])@,
                    seen@[k],
                ) by {
                    assert(slot_matches(arena@, prev, k, map0[k]@, seen0[k]));
                    assert(first_rule_for(cur, k) == (match first_rule_for(prev, k) {
                        Some(s) => Some(s),
                        None => if cur.last().spec_predecessor().spec_value() == k {
                            Some(cur.last().spec_successor())
                        } else {
                            None::<Seq<TokenId>>
                        },
                    }));
                }
            }
        }

        proof {
            assert(rules@.subrange(0, m as int) =~= rules@);
            assert forall|k: int| 0 <= k < n implies (#[trigger] map@[k])@ == rule_map_at(
                arena@,
                rules@,
                k,
            ) by {
                assert(slot_matches(arena@, rules@, k, map@[k]@, seen@[k]));
            }
            assert forall|k: int| 0 <= k < n implies valid_ids(
                n as int,
                (#[trigger] map@[k])@,
            ) by {
                if first_rule_for(rules@, k) is Some {
                    lemma_first_rule_valid(rules@, k, n as int);
                } else {
                    let idt = spec_encode(k, arena@[k].spec_param() > 0);
                    assert(map@[k]@ == seq![idt]);
                    assert(idt.spec_value() == k);
                    assert(forall|t: int| 0 <= t < seq![idt].len() ==> (#[trigger] seq![
                        idt,
                    ][t]).spec_value() < n as int);
                }
            }
        }

        // Every stored token contributes exactly one entry.
        assert(map@.len() == arena@.len());

        let ghost gmap = map@;
        let ghost gtokens = arena@;
        let ghost grules = rules@;
        let sys = LSystem::new(arena, axiom_vec, map);
        proof {
            assert forall|i: int| 0 <= i < gtokens.len() implies sys.spec_rules()[i]
                == rule_map_at(gtokens, grules, i) by {
                assert(sys.spec_rules()[i] == (#[trigger] gmap[i])@);
                assert(gmap[i]@ == rule_map_at(gtokens, grules, i));
            }
        }
        Ok(sys)
    }
}

impl Default for LSystemBuilder {
    /// Same as [`LSystemBuilder::new`]: an empty builder.
    fn default() -> (r: LSystemBuilder)
        ensures
            r.wf(),
            r.spec_arena()@.len() == 0,
            r.spec_axiom() is None,
            r.spec_rules().len() == 0,
    {
        LSystemBuilder::new()
    }
}

/// Tokens not assigned an explicit production rule are constants: a step
/// through a rule map produced by finalization maps every such token to
/// itself, so a sequence of them is reproduced unchanged.  Each `s[k]` must
/// be the identifier the arena assigned (its flag derived from the stored
/// token's parameter), which is what the builder hands out.
pub proof fn lemma_unruled_tokens_step_to_themselves(
    tokens: Seq<Token>,
    rules: Seq<ProductionRule>,
    map: Seq<Seq<TokenId>>,
    s: Seq<TokenId>,
)
    requires
        map.len() == tokens.len(),
        forall|i: int| 0 <= i < tokens.len() ==> #[trigger] map[i] == rule_map_at(
            tokens,
            rules,
            i,
        ),
        forall|k: int| 0 <= k < s.len() ==> {
            &&& 0 <= (#[trigger] s[k]).spec_value() < tokens.len()
            &&& s[k] == spec_encode(
                s[k].spec_value(),
                tokens[s[k].spec_value()].spec_param() > 0,
            )
            &&& first_rule_for(rules, s[k].spec_value()) is None
        },
    ensures
        crate::system::spec_step(map, s) == s,
{
    assert forall|k: int| 0 <= k < s.len() implies (#[trigger] s[k]).spec_value() < map.len()
        && map[s[k].spec_value()] == seq![s[k]] by {
        assert(map[s[k].spec_value()] == rule_map_at(tokens, rules, s[k].spec_value()));
    }
    crate::system::lemma_identity_rules_fixpoint(map, s);
}

// ---------------------------------------------------------------------------
// Rendering helpers
// ---------------------------------------------------------------------------

/// The concatenation, in order, of the display names of the tokens that
/// `ids` refer to.
pub open spec fn spec_render(tokens: Seq<Token>, ids: Seq<TokenId>) -> Seq<char>
    decreases ids.len(),
{
    if ids.len() == 0 {
        Seq::empty()
    } else {
        spec_render(tokens, ids.drop_last()) + tokens[ids.last().spec_value()].spec_name()
    }
}

/// The textual form of one rule: predecessor name, an arrow, the successor
/// names.
pub open spec fn spec_rule_entry(tokens: Seq<Token>, r: ProductionRule) -> Seq<char> {
    tokens[r.spec_predecessor().spec_value()].spec_name() + " => "@ + spec_render(
        tokens,
        r.spec_successor(),
    )
}

/// The textual forms of all rules, joined with commas.
pub open spec fn spec_rules_string(tokens: Seq<Token>, rules: Seq<ProductionRule>) -> Seq<char>
    decreases rules.len(),
{
    if rules.len() == 0 {
        Seq::empty()
    } else if rules.len() == 1 {
        spec_rule_entry(tokens, rules.last())
    } else {
        spec_rules_string(tokens, rules.drop_last()) + ","@ + spec_rule_entry(
            tokens,
            rules.last(),
        )
    }
}

/// Concatenates, in order, the display names of the tokens that `ids`
/// refer to.
pub fn render_tokens(arena: &Arena, ids: &[TokenId]) -> (r: String)
    requires
        arena.wf(),
        valid_ids(arena@.len() as int, ids@),
    ensures
        r@ == spec_render(arena@, ids@),
{
    let mut out = String::new();
    let mut i: usize = 0;
    while i < ids.len()
        invariant
            arena.wf(),
            valid_ids(arena@.len() as int, ids@),
            0 <= i <= ids@.len(),
            out@ == spec_render(arena@, ids@.subrange(0, i as int)),
        decreases ids@.len() - i,
    {
        let id = ids[i];
        let t = arena.token_at(id.value() as usize);
        out.append(t.name());
        i += 1;
        proof {
            assert(ids@.subrange(0, i as int).drop_last() =~= ids@.subrange(0, i - 1));
        }
    }
    proof {
        assert(ids@.subrange(0, ids@.len() as int) =~= ids@);
    }
    out
}

/// Renders every rule as `predecessor => successor`, the entries joined
/// with commas.
pub fn build_rules_string(rules: &[ProductionRule], arena: &Arena) -> (r: String)
    requires
        arena.wf(),
        forall|i: int| 0 <= i < rules@.len() ==> rule_valid(
            arena@.len() as int,
            #[trigger] rules@[i],
        ),
    ensures
        r@ == spec_rules_string(arena@, rules@),
{
    let mut out = String::new();
    let mut j: usize = 0;
    while j < rules.len()
        invariant
            arena.wf(),
            forall|i: int| 0 <= i < rules@.len() ==> rule_valid(
                arena@.len() as int,
                #[trigger] rules@[i],
            ),
            0 <= j <= rules@.len(),
            out@ == spec_rules_string(arena@, rules@.subrange(0, j as int)),
        decreases rules@.len() - j,
    {
        if j > 0 {
            out.append(",");
        }
        let rr = &rules[j];
        let t = arena.token_at(rr.predecessor.value() as usize);
        out.append(t.name());
        out.append(" => ");
        let rendered = render_tokens(arena, rr.successor.as_slice());
        out.append(rendered.as_str());
        j += 1;
        proof {
            let prev = rules@.subrange(0, j - 1);
            let cur = rules@.subrange(0, j as int);
            assert(cur.drop_last() =~= prev);
            assert(cur.last() == rules@[j - 1]);
            if j == 1 {
                assert(out@ =~= spec_rule_entry(arena@, cur.last()));
            } else {
                assert(out@ =~= spec_rules_string(arena@, prev) + ","@ + spec_rule_entry(
                    arena@,
                    cur.last(),
                ));
            }
        }
    }
    proof {
        assert(rules@.subrange(0, rules@.len() as int) =~= rules@);
    }
    out
}

} // verus!
