//! Short-lived CSRF/redirect-correlation tokens for the OAuth flow.
//!
//! A link state is created when an authorization link is requested and
//! consumed — read once, then deleted, as one unit — during callback
//! handling. It expires a fixed time after creation; an id that was
//! consumed or has expired is never valid again, so a replayed `state`
//! parameter fails.

use vstd::prelude::*;

use crate::errors::{AppError, ErrorKind};
use crate::record::is_opaque_id;
use crate::time::now_unix_millis;

verus! {

/// The OAuth providers this service brokers.
#[derive(Clone, Copy, Debug, PartialEq, Eq, Structural)]
pub enum Provider {
    GOOGLE,
}

impl Provider {
    /// The provider's name on the wire.
    pub fn to_string(&self) -> (r: String)
        ensures
            self is GOOGLE ==> r@ == "GOOGLE"@,
    {
        match self {
            Provider::GOOGLE => "GOOGLE".to_owned(),
        }
    }
}

/// The mathematical shape of a link state.
pub struct LinkStateView {
    pub id: Seq<char>,
    pub provider: Provider,
    pub redirect: Seq<char>,
    pub created_at: int,
    pub updated_at: int,
}

/// A single-use CSRF token correlating an outbound OAuth redirect with
/// its eventual callback. Timestamps are Unix milliseconds.
#[derive(Debug)]
pub struct LinkState {
    pub id: String,
    pub provider: Provider,
    pub redirect: String,
    pub created_at: i64,
    pub updated_at: i64,
}

impl View for LinkState {
    type V = LinkStateView;

    open spec fn view(&self) -> LinkStateView {
        LinkStateView {
            id: self.id@,
            provider: self.provider,
            redirect: self.redirect@,
            created_at: self.created_at as int,
            updated_at: self.updated_at as int,
        }
    }
}

/// How long an unconsumed link state stays visible, in milliseconds:
/// ten minutes from creation.
pub const LINK_STATE_TTL_MILLIS: i64 = 600000;

/// Whether a link state is still visible at `now`: less than the TTL
/// has passed since it was created.
pub open spec fn spec_is_live(l: LinkStateView, now: int) -> bool {
    now < l.created_at + LINK_STATE_TTL_MILLIS
}

impl Clone for LinkState {
    /// A copy that keeps the view.
    fn clone(&self) -> (r: LinkState)
        ensures
            r@ == self@,
    {
        LinkState {
            id: self.id.clone(),
            provider: self.provider,
            redirect: self.redirect.clone(),
            created_at: self.created_at,
            updated_at: self.updated_at,
        }
    }
}

impl Default for LinkState {
    /// A fresh link state with a fresh opaque id, the local redirect
    /// target, and both timestamps set to one reading of the clock.
    fn default() -> (r: LinkState)
        ensures
            is_opaque_id(r@.id),
            r@.provider is GOOGLE,
            r@.redirect == "http://localhost:3000/oauth/google-redirect"@,
            r@.created_at == r@.updated_at,
    {
        let now = now_unix_millis();
        LinkState {
            id: crate::record::generate_nanoid(),
            provider: Provider::GOOGLE,
            redirect: "http://localhost:3000/oauth/google-redirect".to_owned(),
            created_at: now,
            updated_at: now,
        }
    }
}

impl LinkState {
    /// A fresh link state bound to the given redirect target.
    pub fn new(redirect: String) -> (r: LinkState)
        ensures
            is_opaque_id(r@.id),
            r@.provider is GOOGLE,
            r@.redirect == redirect@,
            r@.created_at == r@.updated_at,
    {
        let mut l = LinkState::default();
        l.redirect = redirect;
        l
    }
}

/// The index of the first stored state carrying `id`, if any.
pub open spec fn state_find(view: Seq<LinkStateView>, id: Seq<char>) -> Option<int>
    decreases view.len(),
{
    if view.len() == 0 {
        None
    } else if view[0].id == id {
        Some(0int)
    } else {
        match state_find(view.drop_first(), id) {
            None => None,
            Some(j) => Some(j + 1),
        }
    }
}

/// What `state_find` finding (or not finding) an index means.
pub proof fn lemma_state_find_props(view: Seq<LinkStateView>, id: Seq<char>)
    ensures
        match state_find(view, id) {
            None => forall|k: int| 0 <= k < view.len() ==> (#[trigger] view[k]).id != id,
            Some(j) => 0 <= j < view.len() && view[j].id == id && forall|k: int|
                0 <= k < j ==> (#[trigger] view[k]).id != id,
        },
    decreases view.len(),
{
    if view.len() > 0 && view[0].id != id {
        lemma_state_find_props(view.drop_first(), id);
        match state_find(view.drop_first(), id) {
            None => {
                assert forall|k: int| 0 <= k < view.len() implies (#[trigger] view[k]).id
                    != id by {
                    if k > 0 {
                        assert(view.drop_first()[k - 1] == view[k]);
                    }
                }
            },
            Some(j) => {
                assert(view.drop_first()[j] == view[j + 1]);
                assert forall|k: int| 0 <= k < j + 1 implies (#[trigger] view[k]).id != id by {
                    if k > 0 {
                        assert(view.drop_first()[k - 1] == view[k]);
                    }
                }
            },
        }
    }
}

/// The stored states whose id is not `id`, in order: what a consume
/// leaves behind.
pub open spec fn states_without(view: Seq<LinkStateView>, id: Seq<char>) -> Seq<LinkStateView>
    decreases view.len(),
{
    if view.len() == 0 {
        Seq::empty()
    } else {
        let rest = states_without(view.drop_last(), id);
        if view.last().id == id {
            rest
        } else {
            rest.push(view.last())
        }
    }
}

/// After removal, no stored state carries `id` any more.
pub proof fn lemma_states_without_gone(view: Seq<LinkStateView>, id: Seq<char>)
    ensures
        forall|i: int|
            0 <= i < states_without(view, id).len() ==> (#[trigger] states_without(view, id)[i]).id
                != id,
        state_find(states_without(view, id), id) is None,
    decreases view.len(),
{
    if view.len() > 0 {
        lemma_states_without_gone(view.drop_last(), id);
    }
    lemma_state_find_props(states_without(view, id), id);
    if state_find(states_without(view, id), id) is Some {
        let j = state_find(states_without(view, id), id)->Some_0;
        assert(states_without(view, id)[j].id == id);
        assert(false);
    }
}

/// A link state, once consumed, is never valid again: a consume removes
/// every record under the id, so any later consume of the same id finds
/// nothing and must fail, whatever the clock then says.
pub proof fn lemma_link_state_single_use(view: Seq<LinkStateView>, id: Seq<char>)
    ensures
        state_find(states_without(view, id), id) is None,
{
    lemma_states_without_gone(view, id);
}

/// An in-memory link-state store with store-enforced expiry: a state
/// older than the TTL is never handed out. It stands where the backing
/// document store would.
pub struct LinkStateStore {
    pub items: Vec<LinkState>,
}

impl View for LinkStateStore {
    type V = Seq<LinkStateView>;

    open spec fn view(&self) -> Seq<LinkStateView> {
        self.items@.map_values(|l: LinkState| l@)
    }
}

impl LinkStateStore {
    /// An empty store.
    pub fn new() -> (s: LinkStateStore)
        ensures
            s@.len() == 0,
    {
        LinkStateStore { items: Vec::new() }
    }

    /// Persists a fresh link state. Fails with `Conflict` when the id is
    /// already present: ids are unique in the backing store.
    pub fn create(&mut self, state: LinkState) -> (r: Result<LinkState, AppError>)
        ensures
            match r {
                Ok(l) => {
                    &&& state_find(old(self)@, state@.id) is None
                    &&& l@ == state@
                    &&& final(self)@ =~= old(self)@.push(state@)
                },
                Err(e) => {
                    &&& e.kind == ErrorKind::Conflict
                    &&& state_find(old(self)@, state@.id) is Some
                    &&& final(self)@ == old(self)@
                },
            },
    {
        let mut i: usize = 0;
        while i < self.items.len()
            invariant
                i <= self@.len(),
                self@.len() == self.items@.len(),
                self@ == old(self)@,
                self.items@ == old(self).items@,
                forall|k: int| 0 <= k < i ==> (#[trigger] self@[k]).id != state@.id,
            decreases self@.len() - i,
        {
            if self.items[i].id == state.id {
                proof {
                    lemma_state_find_props(self@, state@.id);
                    if state_find(self@, state@.id) is None {
                        assert(self@[i as int].id != state@.id);
                        assert(false);
                    }
                }
                return Err(AppError::conflict("link state id taken"));
            }
            proof {
                assert(self@[i as int].id == self.items@[i as int].id@);
            }
            i = i + 1;
        }
        proof {
            lemma_state_find_props(self@, state@.id);
            if state_find(self@, state@.id) is Some {
                let j = state_find(self@, state@.id)->Some_0;
                assert(self@[j].id == state@.id);
                assert(false);
            }
        }
        let returned = state.clone();
        let ghost pre = self@;
        self.items.push(state);
        proof {
            assert(self@ =~= pre.push(returned@));
        }
        Ok(returned)
    }

    /// The index of the first stored state carrying `id`, if any.
    fn find_state_index(&self, id: &str) -> (r: Option<usize>)
        ensures
            match r {
                Some(i) => state_find(self@, id@) == Some(i as int),
                None => state_find(self@, id@) is None,
            },
    {
        let id_owned = id.to_owned();
        let mut i: usize = 0;
        while i < self.items.len()
            invariant
                i <= self@.len(),
                self@.len() == self.items@.len(),
                id_owned@ == id@,
                forall|k: int| 0 <= k < i ==> (#[trigger] self@[k]).id != id@,
            decreases self@.len() - i,
        {
            if self.items[i].id == id_owned {
                proof {
                    lemma_state_find_props(self@, id@);
                    match state_find(self@, id@) {
                        None => {
                            assert(self@[i as int].id != id@);
                            assert(false);
                        },
                        Some(j) => {
                            assert(j == i as int);
                        },
                    }
                }
                return Some(i);
            }
            proof {
                assert(self@[i as int].id == self.items@[i as int].id@);
            }
            i = i + 1;
        }
        proof {
            lemma_state_find_props(self@, id@);
            if state_find(self@, id@) is Some {
                let j = state_find(self@, id@)->Some_0;
                assert(self@[j].id == id@);
                assert(false);
            }
        }
        None
    }

    /// Consumes a link state: the read and the delete are one unit, so
    /// an id can be consumed at most once. Fails when no state carries
    /// the id, and also when one does but more than the TTL has passed
    /// since it was created — the store-enforced expiry.
    pub fn consume(&mut self, id: &str, now: i64) -> (r: Result<LinkState, AppError>)
        ensures
            match r {
                Ok(l) => {
                    &&& state_find(old(self)@, id@) is Some
                    &&& l@ == old(self)@[state_find(old(self)@, id@)->Some_0]
                    &&& spec_is_live(l@, now as int)
                    &&& final(self)@ =~= states_without(old(self)@, id@)
                },
                Err(e) => {
                    &&& e.kind == ErrorKind::NotFound
                    &&& match state_find(old(self)@, id@) {
                        None => true,
                        Some(j) => !spec_is_live(old(self)@[j], now as int),
                    }
                    &&& final(self)@ == old(self)@
                },
            },
    {
        let id_owned = id.to_owned();
        let j = match self.find_state_index(id) {
            Option::None => {
                return Err(AppError::not_found("link state not found"));
            },
            Option::Some(j) => j,
        };
        proof {
            lemma_state_find_props(self@, id@);
        }
        let state = self.items[j].clone();
        // A creation time so large that adding the TTL would overflow an
        // i64 lies beyond any clock value, so such a state is still live.
        let live = state.created_at > i64::MAX - LINK_STATE_TTL_MILLIS || now < state.created_at
            + LINK_STATE_TTL_MILLIS;
        if !live {
            return Err(AppError::not_found("link state expired"));
        }
        // Read then delete as one unit: remove every record under the id.
        let mut kept: Vec<LinkState> = Vec::new();
        let mut k: usize = 0;
        proof {
            assert(self@.take(0) =~= Seq::empty());
            assert(kept@.map_values(|l: LinkState| l@) =~= Seq::empty());
        }
        while k < self.items.len()
            invariant
                k <= self@.len(),
                self@.len() == self.items@.len(),
                self@ == old(self)@,
                self.items@ == old(self).items@,
                id_owned@ == id@,
                kept@.map_values(|l: LinkState| l@) =~= states_without(
                    self@.take(k as int),
                    id@,
                ),
            decreases self@.len() - k,
        {
            let ghost pre_kept = kept@;
            let ghost cur = self@.take(k as int + 1);
            proof {
                assert(cur.drop_last() =~= self@.take(k as int));
                assert(cur.last() == self@[k as int]);
                assert(self@[k as int].id == self.items@[k as int].id@);
            }
            if !(self.items[k].id == id_owned) {
                let keep = self.items[k].clone();
                kept.push(keep);
                proof {
                    assert(kept@.map_values(|l: LinkState| l@) =~= pre_kept.map_values(
                        |l: LinkState| l@,
                    ).push(self@[k as int]));
                }
            }
            k = k + 1;
        }
        proof {
            assert(self@.take(k as int) =~= self@);
        }
        self.items = kept;
        Ok(state)
    }
}

} // verus!
