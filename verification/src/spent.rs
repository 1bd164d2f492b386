//! The authorization tokens that withdrawals have consumed.

use vstd::prelude::*;

verus! {

/// The set of the tokens in `listed`.
pub open spec fn token_set(listed: Seq<String>) -> Set<Seq<char>> {
    Set::new(
        |token: Seq<char>|
            exists|at: int| 0 <= at < listed.len() && #[trigger] listed[at]@ == token,
    )
}

/// A set of tokens that only grows: a token, once added, stays.
pub struct SpentSet {
    tokens: Vec<String>,
}

impl View for SpentSet {
    type V = Set<Seq<char>>;

    /// The tokens consumed so far.
    open spec fn view(&self) -> Set<Seq<char>> {
        self.as_set()
    }
}

impl SpentSet {
    /// The tokens consumed so far.
    pub closed spec fn as_set(self) -> Set<Seq<char>> {
        token_set(self.tokens@)
    }

    /// A set that holds no token.
    pub fn new() -> (spent: Self)
        ensures
            spent@ == Set::<Seq<char>>::empty(),
    {
        let spent = SpentSet { tokens: Vec::new() };
        assert(spent@ =~= Set::<Seq<char>>::empty());
        spent
    }

    /// The tokens consumed so far, as `restore` takes them.
    pub fn tokens(&self) -> (listed: Vec<String>)
        ensures
            token_set(listed@) == self@,
    {
        let mut listed: Vec<String> = Vec::new();
        let mut at: usize = 0;
        while at < self.tokens.len()
            invariant
                at <= self.tokens.len(),
                listed.len() == at,
                forall|seen: int| 0 <= seen < at ==> #[trigger] listed[seen]@ == self.tokens[seen]@,
            decreases self.tokens.len() - at,
        {
            listed.push(self.tokens[at].clone());
            at += 1;
        }
        proof {
            assert forall|token: Seq<char>| token_set(listed@).contains(token)
                <==> self@.contains(token) by {
                if token_set(listed@).contains(token) {
                    let at = choose|at: int|
                        0 <= at < listed.len() && #[trigger] listed[at]@ == token;
                    assert(self.tokens[at]@ == token);
                }
                if self@.contains(token) {
                    let at = choose|at: int|
                        0 <= at < self.tokens.len() && #[trigger] self.tokens[at]@ == token;
                    assert(listed[at]@ == token);
                }
            }
            assert(token_set(listed@) =~= self@);
        }
        listed
    }

    /// The set that holds the tokens `listed`.
    pub fn restore(listed: Vec<String>) -> (spent: Self)
        ensures
            spent@ == token_set(listed@),
    {
        SpentSet { tokens: listed }
    }

    /// Whether `token` has been consumed.
    pub fn contains(&self, token: &String) -> (yes: bool)
        ensures
            yes == self@.contains(token@),
    {
        let mut at: usize = 0;
        while at < self.tokens.len()
            invariant
                at <= self.tokens.len(),
                forall|seen: int| 0 <= seen < at ==> #[trigger] self.tokens[seen]@ != token@,
            decreases self.tokens.len() - at,
        {
            if self.tokens[at] == *token {
                return true;
            }
            at += 1;
        }
        false
    }

    /// Records `token` as consumed. Adding a token that is held already is
    /// not rejected and leaves the set as it was.
    pub fn add(&mut self, token: String)
        ensures
            final(self)@ == old(self)@.insert(token@),
    {
        let ghost added = token@;
        self.tokens.push(token);
        proof {
            let last = old(self).tokens.len() as int;
            assert(self.tokens[last]@ == added);
            assert forall|token: Seq<char>| self@.contains(token) <==> old(self)@.insert(
                added,
            ).contains(token) by {
                if old(self)@.contains(token) {
                    let at = choose|at: int|
                        0 <= at < old(self).tokens.len() && #[trigger] old(self).tokens[at]@
                            == token;
                    assert(self.tokens[at]@ == token);
                }
                if self@.contains(token) && token != added {
                    let at = choose|at: int|
                        0 <= at < self.tokens.len() && #[trigger] self.tokens[at]@ == token;
                    assert(old(self).tokens[at]@ == token);
                }
            }
            assert(self@ =~= old(self)@.insert(added));
        }
    }
}

} // verus!
