//! The bounded, append-only store of all tokens known to a system.
//!
//! An arena holds at most 128 tokens.  Tokens are assigned identifiers in
//! strictly increasing index order starting at 0; no slot is ever removed or
//! overwritten.  An identifier is valid for an arena iff its 7-bit index is
//! below the arena's length.

use vstd::prelude::*;

use crate::errors::LSystemError;
use crate::token::{spec_encode, Token, TokenId};

verus! {

/// The largest number of tokens an arena can hold: one per 7-bit index.
pub const CAPACITY: usize = 128;

/// Whether every identifier of `ids` carries an index below `len`.
pub open spec fn valid_ids(len: int, ids: Seq<TokenId>) -> bool {
    forall|i: int| 0 <= i < ids.len() ==> (#[trigger] ids[i]).spec_value() < len
}

/// Identifiers valid for a store stay valid as the store grows.
pub proof fn lemma_valid_ids_monotone(len1: int, len2: int, ids: Seq<TokenId>)
    requires
        len1 <= len2,
        valid_ids(len1, ids),
    ensures
        valid_ids(len2, ids),
{
}

/// A fixed-capacity, append-only token store.
#[derive(Debug)]
pub struct Arena {
    tokens: Vec<Token>,
}

impl View for Arena {
    type V = Seq<Token>;

    closed spec fn view(&self) -> Seq<Token> {
        self.tokens@
    }
}

impl Arena {
    /// The arena never outgrows its 128 slots.
    pub open spec fn wf(self) -> bool {
        self@.len() <= 128
    }

    /// Whether `id`'s index refers to a stored token.
    pub open spec fn spec_valid(self, id: TokenId) -> bool {
        id.spec_value() < self@.len()
    }

    /// The identifier assigned to slot `i`: index `i`, flagged iff the
    /// stored token's parameter is non-zero.
    pub open spec fn spec_assigned_id(self, i: int) -> TokenId {
        spec_encode(i, self@[i].spec_param() > 0)
    }

    /// An empty arena.
    pub fn new() -> (r: Arena)
        ensures
            r@.len() == 0,
            r.wf(),
    {
        Arena { tokens: Vec::new() }
    }

    /// The number of tokens stored so far.
    pub fn len(&self) -> (r: u8)
        requires
            self.wf(),
        ensures
            r as int == self@.len(),
    {
        self.tokens.len() as u8
    }

    /// Whether no token has been stored yet.
    pub fn is_empty(&self) -> (r: bool)
        ensures
            r == (self@.len() == 0),
    {
        self.tokens.len() == 0
    }

    /// Bounds-checked lookup: the token at `id`'s index, or nothing when
    /// the index is not below the arena's length.
    pub fn get_token(&self, id: &TokenId) -> (r: Option<&Token>)
        ensures
            self.spec_valid(*id) ==> (r matches Some(t) && *t == self@[id.spec_value()]),
            !self.spec_valid(*id) ==> r is None,
    {
        let idx: usize = id.value() as usize;
        if idx < self.tokens.len() {
            Some(&self.tokens[idx])
        } else {
            None
        }
    }

    /// The token stored at slot `i`.
    pub(crate) fn token_at(&self, i: usize) -> (r: &Token)
        requires
            i < self@.len(),
        ensures
            *r == self@[i as int],
    {
        &self.tokens[i]
    }

    /// The stored tokens, in insertion order.
    pub fn iter_tokens(&self) -> (r: &[Token])
        ensures
            r@ == self@,
    {
        self.tokens.as_slice()
    }

    /// Whether `id` refers to a stored token.
    pub fn is_valid(&self, id: &TokenId) -> (r: bool)
        ensures
            r == self.spec_valid(*id),
    {
        (id.value() as usize) < self.tokens.len()
    }

    /// Whether every identifier of `ids` refers to a stored token.
    pub fn is_valid_slice(&self, ids: &[TokenId]) -> (r: bool)
        ensures
            r == valid_ids(self@.len() as int, ids@),
    {
        let mut i: usize = 0;
        while i < ids.len()
            invariant
                0 <= i <= ids@.len(),
                forall|j: int| 0 <= j < i ==> (#[trigger] ids@[j]).spec_value() < self@.len(),
            decreases ids@.len() - i,
        {
            if !self.is_valid(&ids[i]) {
                return false;
            }
            i += 1;
        }
        true
    }

    /// Appends `value` to the next free slot and returns the identifier it
    /// was assigned: the new index, flagged iff the token's parameter is
    /// non-zero.  Fails with [`LSystemError::ArenaFull`] when all 128 slots
    /// are taken, leaving the arena unchanged.
    pub fn push_token(&mut self, value: Token) -> (r: Result<TokenId, LSystemError>)
        requires
            old(self).wf(),
        ensures
            final(self).wf(),
            old(self)@.len() < 128 ==> (r matches Ok(id)
                && id == spec_encode(old(self)@.len() as int, value.spec_param() > 0)
                && final(self)@ == old(self)@.push(value)),
            old(self)@.len() >= 128 ==> r == Err::<TokenId, LSystemError>(LSystemError::ArenaFull)
                && *final(self) == *old(self),
    {
        let n: usize = self.tokens.len();
        if n < CAPACITY {
            let id = TokenId::new(n as u8, value.param() > 0);
            self.tokens.push(value);
            Ok(id)
        } else {
            Err(LSystemError::ArenaFull)
        }
    }

    /// A fresh traversal of the stored tokens paired with the identifier
    /// each token was assigned.
    pub fn enumerate(&self) -> (r: EnumerableArena<'_>)
        requires
            self.wf(),
        ensures
            r.spec_arena() == *self,
            r.spec_pos() == 0,
    {
        EnumerableArena { arena: self, pos: 0 }
    }
}

impl Default for Arena {
    /// Same as [`Arena::new`]: an empty arena.
    fn default() -> (r: Arena)
        ensures
            r@.len() == 0,
            r.wf(),
    {
        Arena::new()
    }
}

/// A cursor over an arena's tokens, yielding each together with the
/// identifier it was assigned, in insertion order.
pub struct EnumerableArena<'a> {
    arena: &'a Arena,
    pos: usize,
}

impl<'a> EnumerableArena<'a> {
    /// The traversed arena.
    pub closed spec fn spec_arena(self) -> Arena {
        *self.arena
    }

    /// How many tokens have been yielded so far.
    pub closed spec fn spec_pos(self) -> int {
        self.pos as int
    }

    /// The next token and its assigned identifier, or nothing once all
    /// stored tokens have been yielded.
    pub fn next(&mut self) -> (r: Option<(TokenId, &'a Token)>)
        requires
            old(self).spec_arena().wf(),
        ensures
            final(self).spec_arena() == old(self).spec_arena(),
            old(self).spec_pos() < old(self).spec_arena()@.len() ==> (r matches Some(p)
                && p.0 == old(self).spec_arena().spec_assigned_id(old(self).spec_pos())
                && *p.1 == old(self).spec_arena()@[old(self).spec_pos()]
                && final(self).spec_pos() == old(self).spec_pos() + 1),
            old(self).spec_pos() >= old(self).spec_arena()@.len() ==> r is None
                && final(self).spec_pos() == old(self).spec_pos(),
    {
        if self.pos < self.arena.tokens.len() {
            let t = &self.arena.tokens[self.pos];
            let id = TokenId::new(self.pos as u8, t.param() > 0);
            self.pos += 1;
            Some((id, t))
        } else {
            None
        }
    }
}

} // verus!
