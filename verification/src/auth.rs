//! Per-submitter credential mapping.
//!
//! Server-side mapping from bearer tokens to submitter identities and their
//! authorized strategy set. A `strategy_id` is an attribution label validated
//! against the credential, never a credential itself.

use vstd::hash_map::StringHashMap;
use vstd::prelude::*;

use crate::text::{same, strip_prefix};

verus! {

/// One submitter's credentials and authorization scope.
#[derive(Debug)]
pub struct SubmitterCredentials {
    /// Shared bearer token for this submitter.
    pub token: String,
    /// Server-side submitter identity.
    pub submitter_id: String,
    /// Strategy IDs this submitter may submit and query for.
    pub strategies: Vec<String>,
}

impl SubmitterCredentials {
    /// Whether `strategy_id` is one of the strategies of this submitter.
    pub open spec fn covers(&self, strategy_id: Seq<char>) -> bool {
        exists|i: int|
            0 <= i < self.strategies@.len() && (#[trigger] self.strategies@[i])@ == strategy_id
    }
}

/// No two of the credentials carry the same token.
pub open spec fn tokens_distinct(submitters: Seq<SubmitterCredentials>) -> bool {
    forall|i: int, j: int|
        0 <= i < j < submitters.len() ==> (#[trigger] submitters[i]).token@ != (
        #[trigger] submitters[j]).token@
}

/// The token at `index` occurs at an earlier place, and no token before
/// `index` does.
pub open spec fn first_repeat(submitters: Seq<SubmitterCredentials>, index: int) -> bool {
    &&& 0 <= index < submitters.len()
    &&& tokens_distinct(submitters.take(index))
    &&& exists|i: int| 0 <= i < index && (#[trigger] submitters[i]).token@ == submitters[index].token@
}

/// Registry of all authorized submitters, keyed by token.
pub struct SubmitterRegistry {
    submitters: Vec<SubmitterCredentials>,
    by_token: StringHashMap<usize>,
}

impl View for SubmitterRegistry {
    type V = Seq<SubmitterCredentials>;

    closed spec fn view(&self) -> Seq<SubmitterCredentials> {
        self.submitters@
    }
}

/// `index` leads each of the tokens to its place, and leads nowhere else.
spec fn indexes(index: Map<Seq<char>, usize>, submitters: Seq<SubmitterCredentials>) -> bool {
    &&& forall|i: int|
        0 <= i < submitters.len() ==> #[trigger] index.contains_key(submitters[i].token@)
            && index[submitters[i].token@] == i
    &&& forall|token: Seq<char>| #[trigger]
        index.contains_key(token) ==> index[token] < submitters.len()
            && submitters[index[token] as int].token@ == token
}

impl SubmitterRegistry {
    /// The token index agrees with the credential list.
    pub closed spec fn wf(&self) -> bool {
        indexes(self.by_token@, self.submitters@)
    }

    /// Creates a registry from a credential list.
    ///
    /// Duplicate tokens are a configuration error: they would silently grant
    /// another submitter's identity. [`SubmitterRegistry::try_new`] finds them.
    pub fn new(submitters: Vec<SubmitterCredentials>) -> (r: Self)
        requires
            tokens_distinct(submitters@),
        ensures
            r.wf(),
            r@ == submitters@,
    {
        let mut by_token: StringHashMap<usize> = StringHashMap::with_capacity(submitters.len());
        let mut index: usize = 0;
        while index < submitters.len()
            invariant
                index <= submitters@.len(),
                tokens_distinct(submitters@),
                indexes(by_token@, submitters@.take(index as int)),
            decreases submitters.len() - index,
        {
            by_token.insert(submitters[index].token.clone(), index);
            proof {
                let before = submitters@.take(index as int);
                let after = submitters@.take(index + 1);
                assert forall|i: int| 0 <= i < after.len() implies #[trigger] by_token@.contains_key(
                    after[i].token@,
                ) && by_token@[after[i].token@] == i by {
                    if i < index {
                        assert(after[i] == before[i]);
                    }
                }
                assert forall|token: Seq<char>| #[trigger] by_token@.contains_key(
                    token,
                ) implies by_token@[token] < after.len() && after[by_token@[token] as int].token@
                    == token by {
                    if token != submitters@[index as int].token@ {
                        assert(before[by_token@[token] as int] == after[by_token@[token] as int]);
                    }
                }
            }
            index = index + 1;
        }
        assert(submitters@.take(index as int) =~= submitters@);
        SubmitterRegistry { submitters, by_token }
    }

    /// Creates a registry from a credential list, or names the submitter whose
    /// token occurs a second time first.
    pub fn try_new(submitters: Vec<SubmitterCredentials>) -> (r: Result<Self, String>)
        ensures
            match r {
                Ok(registry) => tokens_distinct(submitters@) && registry.wf() && registry@
                    == submitters@,
                Err(submitter_id) => exists|index: int| #[trigger]
                    first_repeat(submitters@, index) && submitter_id@
                        == submitters@[index].submitter_id@,
            },
    {
        let mut index: usize = 0;
        while index < submitters.len()
            invariant
                index <= submitters@.len(),
                tokens_distinct(submitters@.take(index as int)),
            decreases submitters.len() - index,
        {
            let mut earlier: usize = 0;
            while earlier < index
                invariant
                    earlier <= index < submitters@.len(),
                    tokens_distinct(submitters@.take(index as int)),
                    forall|i: int|
                        0 <= i < earlier ==> (#[trigger] submitters@[i]).token@
                            != submitters@[index as int].token@,
                decreases index - earlier,
            {
                if same(submitters[earlier].token.as_str(), submitters[index].token.as_str()) {
                    assert(first_repeat(submitters@, index as int));
                    return Err(submitters[index].submitter_id.clone());
                }
                earlier = earlier + 1;
            }
            proof {
                let before = submitters@.take(index as int);
                let after = submitters@.take(index + 1);
                assert forall|i: int, j: int| 0 <= i < j < after.len() implies (
                #[trigger] after[i]).token@ != (#[trigger] after[j]).token@ by {
                    if j < index {
                        assert(before[i].token@ != before[j].token@);
                    }
                }
            }
            index = index + 1;
        }
        assert(submitters@.take(index as int) =~= submitters@);
        Ok(SubmitterRegistry::new(submitters))
    }

    /// Authenticates a raw bearer token to its submitter credentials.
    pub fn authenticate(&self, token: &str) -> (r: Option<&SubmitterCredentials>)
        requires
            self.wf(),
        ensures
            match r {
                Some(credentials) => self@.contains(*credentials) && credentials.token@ == token@,
                None => forall|i: int|
                    0 <= i < self@.len() ==> (#[trigger] self@[i]).token@ != token@,
            },
    {
        match self.by_token.get(token) {
            Some(index) => {
                let credentials = &self.submitters[*index];
                assert(self@[*index as int] == *credentials);
                Some(credentials)
            },
            None => {
                assert forall|i: int| 0 <= i < self@.len() implies (#[trigger] self@[i]).token@
                    != token@ by {
                    assert(self.by_token@.contains_key(self.submitters@[i].token@));
                }
                None
            },
        }
    }

    /// Authenticates a bearer-token header value (`Bearer <token>`).
    pub fn authenticate_header(&self, header: &str) -> (r: Option<&SubmitterCredentials>)
        requires
            self.wf(),
        ensures
            match r {
                Some(credentials) => self@.contains(*credentials) && header@ == "Bearer "@
                    + credentials.token@,
                None => forall|i: int|
                    0 <= i < self@.len() ==> header@ != "Bearer "@ + (#[trigger] self@[i]).token@,
            },
    {
        match strip_prefix(header, "Bearer ") {
            Some(token) => {
                let found = self.authenticate(token.as_str());
                proof {
                    if found is None {
                        assert forall|i: int| 0 <= i < self@.len() implies header@ != "Bearer "@ + (
                        #[trigger] self@[i]).token@ by {
                            if header@ == "Bearer "@ + self@[i].token@ {
                                assert(header@.skip("Bearer "@.len() as int) =~= self@[i].token@);
                                assert(header@.skip("Bearer "@.len() as int) =~= token@);
                            }
                        }
                    }
                }
                found
            },
            None => None,
        }
    }

    /// Whether `strategy_id` is within the credential's authorization set.
    pub fn is_authorized(credentials: &SubmitterCredentials, strategy_id: &str) -> (r: bool)
        ensures
            r == credentials.covers(strategy_id@),
    {
        let mut index: usize = 0;
        while index < credentials.strategies.len()
            invariant
                index <= credentials.strategies@.len(),
                forall|i: int|
                    0 <= i < index ==> (#[trigger] credentials.strategies@[i])@ != strategy_id@,
            decreases credentials.strategies.len() - index,
        {
            if same(credentials.strategies[index].as_str(), strategy_id) {
                return true;
            }
            index = index + 1;
        }
        false
    }
}

/// A token identifies one submitter: where two credentials of a registry carry
/// the same token they stand at the same place.
pub proof fn law_token_identifies_one_submitter(registry: SubmitterRegistry, i: int, j: int)
    requires
        registry.wf(),
        0 <= i < registry@.len(),
        0 <= j < registry@.len(),
        registry@[i].token@ == registry@[j].token@,
    ensures
        i == j,
{
    assert(registry.by_token@.contains_key(registry.submitters@[i].token@));
    assert(registry.by_token@.contains_key(registry.submitters@[j].token@));
}

} // verus!
