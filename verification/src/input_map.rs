//! Named actions over bound keys.
//!
//! An action map binds unique action names to keys, each with its own
//! edge-detection state machine. The map is built once at startup; each
//! frame the loop advances every binding exactly once with the raw signal
//! polled for its key, and then queries the computed states as often as it
//! likes. Looking up a name that was never bound is a configuration error
//! and is reported, never panicked on.

use vstd::prelude::*;

use crate::keyboard::{is_held_state, next_state, IdlePolicy, KeySignal, KeyState, KeyboardInput};

verus! {

/// Error of the action map: the queried action name is not bound.
#[derive(Clone, Copy, PartialEq, Eq, Structural, Debug)]
pub enum InputError {
    UnknownAction,
}

/// Named action bindings with a fixed idle policy.
#[derive(Debug)]
pub struct InputMap {
    actions: Vec<(String, KeyboardInput)>,
    idle_policy: IdlePolicy,
}

impl InputMap {
    /// The bindings in insertion order.
    pub closed spec fn actions_seq(self) -> Seq<(String, KeyboardInput)> {
        self.actions@
    }

    /// How many actions are bound.
    pub open spec fn action_count(self) -> nat {
        self.actions_seq().len()
    }

    /// The name of the binding at `i`.
    pub open spec fn name_at(self, i: int) -> Seq<char> {
        self.actions_seq()[i].0@
    }

    /// The binding at `i`.
    pub open spec fn binding_at(self, i: int) -> KeyboardInput {
        self.actions_seq()[i].1
    }

    /// The configured idle policy.
    pub closed spec fn policy(self) -> IdlePolicy {
        self.idle_policy
    }

    /// Well-formed: action names are unique.
    pub open spec fn wf(self) -> bool {
        forall|i: int, j: int|
            0 <= i < j < self.action_count() ==> self.name_at(i) != self.name_at(j)
    }

    /// Whether some binding carries the name `n`.
    pub open spec fn has_action(self, n: Seq<char>) -> bool {
        exists|i: int| 0 <= i < self.action_count() && self.name_at(i) == n
    }

    /// The index of the binding named `n`; meaningful when `has_action(n)`
    /// holds, and unique under `wf`.
    pub open spec fn action_index(self, n: Seq<char>) -> int {
        choose|i: int| 0 <= i < self.action_count() && self.name_at(i) == n
    }

    /// The edge state of the action named `n`.
    pub open spec fn state_of(self, n: Seq<char>) -> KeyState {
        self.binding_at(self.action_index(n)).state
    }

    /// The hardware key the action named `n` is bound to.
    pub open spec fn key_of(self, n: Seq<char>) -> u32 {
        self.binding_at(self.action_index(n)).key
    }

    /// An empty map under the implicit-up idle policy.
    pub fn new() -> (r: InputMap)
        ensures
            r.wf(),
            r.action_count() == 0,
            r.policy() == IdlePolicy::ImplicitUp,
    {
        InputMap { actions: Vec::new(), idle_policy: IdlePolicy::ImplicitUp }
    }

    /// An empty map under the given idle policy.
    pub fn new_with_policy(policy: IdlePolicy) -> (r: InputMap)
        ensures
            r.wf(),
            r.action_count() == 0,
            r.policy() == policy,
    {
        InputMap { actions: Vec::new(), idle_policy: policy }
    }

    /// Bind `name` to `input`, replacing the binding of the same name if one
    /// exists, and return the map, builder style.
    pub fn add_action(self, name: &str, input: KeyboardInput) -> (r: InputMap)
        requires
            self.wf(),
        ensures
            r.wf(),
            r.policy() == self.policy(),
            r.has_action(name@),
            r.key_of(name@) == input.key,
            r.state_of(name@) == input.state,
            forall|n: Seq<char>| n != name@ ==> r.has_action(n) == self.has_action(n),
            forall|n: Seq<char>|
                n != name@ && self.has_action(n) ==> r.key_of(n) == self.key_of(n) && r.state_of(
                    n,
                ) == self.state_of(n),
            r.action_count() == if self.has_action(name@) {
                self.action_count()
            } else {
                self.action_count() + 1
            },
    {
        let mut map = self;
        let name_owned: String = name.to_owned();
        let found = map.find_index(&name_owned);
        match found {
            Some(i) => {
                proof {
                    lemma_action_index_is(map, name@, i as int);
                }
                map.actions.set(i, (name_owned, input));
                proof {
                    assert forall|a: int, b: int|
                        0 <= a < b < map.action_count() implies map.name_at(a) != map.name_at(
                        b,
                    ) by {
                        assert(self.name_at(a) != self.name_at(b));
                    }
                    lemma_update_keeps_others(self, map, i as int, name@);
                    lemma_action_index_is(map, name@, i as int);
                }
                map
            },
            None => {
                map.actions.push((name_owned, input));
                proof {
                    let ghost n = self.action_count() as int;
                    assert forall|i: int, j: int|
                        0 <= i < j < map.action_count() implies map.name_at(i) != map.name_at(
                        j,
                    ) by {
                        if j < n {
                            assert(self.name_at(i) != self.name_at(j));
                        } else {
                            assert(map.name_at(j) == name@);
                            assert(self.name_at(i) == map.name_at(i));
                        }
                    }
                    lemma_update_keeps_others(self, map, n, name@);
                    lemma_action_index_is(map, name@, n);
                }
                map
            },
        }
    }

    /// The index of the binding named `name`, if any.
    fn find_index(&self, name: &String) -> (r: Option<usize>)
        ensures
            match r {
                Some(i) => i < self.action_count() && self.name_at(i as int) == name@,
                None => !self.has_action(name@),
            },
    {
        let n = self.actions.len();
        let mut i: usize = 0;
        while i < n
            invariant
                i <= n,
                n == self.action_count(),
                forall|j: int| 0 <= j < i ==> self.name_at(j) != name@,
            decreases n - i,
        {
            if self.actions[i].0 == *name {
                return Some(i);
            }
            i = i + 1;
        }
        None
    }

    /// Advance the action named `action_name` by one frame that reported
    /// `signal` for its key; every other binding is left untouched.
    pub fn advance_action(&mut self, action_name: &str, signal: KeySignal) -> (r: Result<
        (),
        InputError,
    >)
        requires
            old(self).wf(),
        ensures
            final(self).wf(),
            final(self).policy() == old(self).policy(),
            final(self).action_count() == old(self).action_count(),
            r is Ok <==> old(self).has_action(action_name@),
            !old(self).has_action(action_name@) ==> r == Err::<(), InputError>(
                InputError::UnknownAction,
            ),
            old(self).has_action(action_name@) ==> {
                &&& final(self).has_action(action_name@)
                &&& final(self).key_of(action_name@) == old(self).key_of(action_name@)
                &&& final(self).state_of(action_name@) == next_state(
                    old(self).state_of(action_name@),
                    signal,
                    old(self).policy(),
                )
            },
            forall|n: Seq<char>|
                n != action_name@ ==> final(self).has_action(n) == old(self).has_action(n),
            forall|n: Seq<char>|
                n != action_name@ && old(self).has_action(n) ==> final(self).key_of(n) == old(
                    self,
                ).key_of(n) && final(self).state_of(n) == old(self).state_of(n),
    {
        let name_owned: String = action_name.to_owned();
        let found = self.find_index(&name_owned);
        match found {
            Some(i) => {
                proof {
                    lemma_action_index_is(*self, action_name@, i as int);
                }
                let name_back = self.actions[i].0.clone();
                let mut binding = self.actions[i].1;
                binding.advance(signal, self.idle_policy);
                let ghost pre = *self;
                self.actions.set(i, (name_back, binding));
                proof {
                    assert forall|a: int, b: int|
                        0 <= a < b < self.action_count() implies self.name_at(a) != self.name_at(
                        b,
                    ) by {
                        assert(pre.name_at(a) != pre.name_at(b));
                    }
                    lemma_update_keeps_others(pre, *self, i as int, action_name@);
                    lemma_action_index_is(*self, action_name@, i as int);
                }
                Ok(())
            },
            None => Err(InputError::UnknownAction),
        }
    }

    /// True exactly on the frame the press edge of `action_name` fired.
    pub fn is_action_just_pressed(&self, action_name: &str) -> (r: Result<bool, InputError>)
        requires
            self.wf(),
        ensures
            self.has_action(action_name@) ==> r == Ok::<bool, InputError>(
                self.state_of(action_name@) == KeyState::JustPressed,
            ),
            !self.has_action(action_name@) ==> r == Err::<bool, InputError>(
                InputError::UnknownAction,
            ),
    {
        let name_owned: String = action_name.to_owned();
        match self.find_index(&name_owned) {
            Some(i) => {
                proof {
                    lemma_action_index_is(*self, action_name@, i as int);
                }
                let binding = self.actions[i].1;
                Ok(binding.is_just_pressed())
            },
            None => Err(InputError::UnknownAction),
        }
    }

    /// True while the key of `action_name` is down, its press edge frame
    /// included.
    pub fn is_action_held(&self, action_name: &str) -> (r: Result<bool, InputError>)
        requires
            self.wf(),
        ensures
            self.has_action(action_name@) ==> r == Ok::<bool, InputError>(
                is_held_state(self.state_of(action_name@)),
            ),
            !self.has_action(action_name@) ==> r == Err::<bool, InputError>(
                InputError::UnknownAction,
            ),
    {
        let name_owned: String = action_name.to_owned();
        match self.find_index(&name_owned) {
            Some(i) => {
                proof {
                    lemma_action_index_is(*self, action_name@, i as int);
                }
                let binding = self.actions[i].1;
                Ok(binding.is_held())
            },
            None => Err(InputError::UnknownAction),
        }
    }

    /// True exactly on the frame the release edge of `action_name` fired.
    pub fn is_action_just_released(&self, action_name: &str) -> (r: Result<bool, InputError>)
        requires
            self.wf(),
        ensures
            self.has_action(action_name@) ==> r == Ok::<bool, InputError>(
                self.state_of(action_name@) == KeyState::JustReleased,
            ),
            !self.has_action(action_name@) ==> r == Err::<bool, InputError>(
                InputError::UnknownAction,
            ),
    {
        let name_owned: String = action_name.to_owned();
        match self.find_index(&name_owned) {
            Some(i) => {
                proof {
                    lemma_action_index_is(*self, action_name@, i as int);
                }
                let binding = self.actions[i].1;
                Ok(binding.is_just_released())
            },
            None => Err(InputError::UnknownAction),
        }
    }

    /// The hardware key code the action named `action_name` is bound to;
    /// the frame loop polls this key and hands the signal back to
    /// [`InputMap::advance_action`].
    pub fn action_key(&self, action_name: &str) -> (r: Result<u32, InputError>)
        requires
            self.wf(),
        ensures
            self.has_action(action_name@) ==> r == Ok::<u32, InputError>(
                self.key_of(action_name@),
            ),
            !self.has_action(action_name@) ==> r == Err::<u32, InputError>(
                InputError::UnknownAction,
            ),
    {
        let name_owned: String = action_name.to_owned();
        match self.find_index(&name_owned) {
            Some(i) => {
                proof {
                    lemma_action_index_is(*self, action_name@, i as int);
                }
                Ok(self.actions[i].1.key)
            },
            None => Err(InputError::UnknownAction),
        }
    }

    /// How many actions are bound.
    pub fn len(&self) -> (r: usize)
        ensures
            r == self.action_count(),
    {
        self.actions.len()
    }

    /// A copy of the name of the binding at `i`, in insertion order; with
    /// [`InputMap::len`] this lets the frame loop walk every binding once
    /// per frame.
    pub fn name_at_index(&self, i: usize) -> (r: String)
        requires
            i < self.action_count(),
        ensures
            r@ == self.name_at(i as int),
    {
        self.actions[i].0.clone()
    }
}

/// Any index that carries the name `n` is the looked-up index of `n`, names
/// being unique.
proof fn lemma_action_index_is(m: InputMap, n: Seq<char>, i: int)
    requires
        m.wf(),
        0 <= i < m.action_count(),
        m.name_at(i) == n,
    ensures
        m.has_action(n),
        m.action_index(n) == i,
{
    assert(m.has_action(n));
    let j = m.action_index(n);
    if i < j {
        assert(m.name_at(i) != m.name_at(j));
    } else if j < i {
        assert(m.name_at(j) != m.name_at(i));
    }
}

/// Two maps that agree everywhere but at index `i`, whose name is `n` in
/// both, agree on every action other than `n`.
proof fn lemma_update_keeps_others(m1: InputMap, m2: InputMap, i: int, n: Seq<char>)
    requires
        m1.wf(),
        m2.wf(),
        m2.action_count() >= m1.action_count(),
        m2.action_count() <= m1.action_count() + 1,
        m2.action_count() == m1.action_count() + 1 ==> i == m1.action_count(),
        0 <= i < m2.action_count(),
        forall|j: int|
            0 <= j < m1.action_count() && j != i ==> m2.name_at(j) == m1.name_at(j)
                && m2.binding_at(j) == m1.binding_at(j),
        i < m1.action_count() ==> m1.name_at(i) == n,
        m2.name_at(i) == n,
    ensures
        forall|q: Seq<char>| q != n ==> m2.has_action(q) == m1.has_action(q),
        forall|q: Seq<char>|
            q != n && m1.has_action(q) ==> m2.key_of(q) == m1.key_of(q) && m2.state_of(q)
                == m1.state_of(q),
{
    assert forall|q: Seq<char>| q != n implies m2.has_action(q) == m1.has_action(q) by {
        if m1.has_action(q) {
            let j = m1.action_index(q);
            assert(m2.name_at(j) == q);
            assert(m2.has_action(q));
        }
        if m2.has_action(q) {
            let j = m2.action_index(q);
            assert(j != i);
            if j < m1.action_count() {
                assert(m1.name_at(j) == q);
                assert(m1.has_action(q));
            } else {
                assert(m2.action_count() == m1.action_count() + 1);
                assert(i < m2.action_count());
            }
        }
    }
    assert forall|q: Seq<char>| q != n && m1.has_action(q) implies m2.key_of(q) == m1.key_of(q)
        && m2.state_of(q) == m1.state_of(q) by {
        let j = m1.action_index(q);
        assert(0 <= j < m1.action_count() && m1.name_at(j) == q);
        assert(m2.name_at(j) == q);
        lemma_action_index_is(m2, q, j);
    }
}

} // verus!
