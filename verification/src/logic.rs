//! The dispatch registry.
//!
//! A [`LowBullMaster`] owns one application state and a table that binds at
//! most one handler to each key of a dense key domain. Registering a key
//! again replaces its handler. Dispatching a key runs the handler bound to
//! it against the application state, synchronously, and hands its verdict
//! back; a key without a handler is reported as an error and leaves the
//! application state as it was.
//!
//! Keys are looked up by the index that [`LogicKey::to_index`] reports. The
//! table has as many places as [`LogicKey::len`] reported when the registry
//! was made, and every index is checked against that bound before use.

use crate::value::UiValue;
use crate::watch::{newest, LowBullWatcher};
use std::collections::hash_map::Entry;
use std::collections::HashMap;
use std::marker::PhantomData;
use vstd::prelude::*;

verus! {

/// `anyhow::Error`, carried through as an opaque value.
#[verifier::external_type_specification]
#[verifier::external_body]
pub struct ExError(anyhow::Error);

/// A key of a dense, enumerable domain: every key reports an index, and the
/// type reports how many places a table over the domain needs.
///
/// Nothing is taken on trust from an implementation. The registry asks for
/// the index whenever it needs one and checks it against the length of its
/// table, and its contracts speak of the index that the call reported (see
/// [`index_of`] and [`domain_len`]).
pub trait LogicKey {
    /// The index of this key.
    fn to_index(&self) -> usize;

    /// The number of places in a table over the whole domain.
    fn len() -> usize;
}

/// `index` is an index that `key` may report through
/// [`LogicKey::to_index`].
pub open spec fn index_of<K: LogicKey>(key: K, index: usize) -> bool {
    call_ensures(K::to_index, (&key,), index)
}

/// `len` is a length that the key domain `K` may report through
/// [`LogicKey::len`].
pub open spec fn domain_len<K: LogicKey>(len: usize) -> bool {
    call_ensures(K::len, (), len)
}

/// An application that handles keys itself.
pub trait LowBullApplication<K: Eq + LogicKey> {
    fn handle_key(&mut self, key: K) -> Result<(), anyhow::Error>;
}

/// Why a registry operation did not run a handler to success.
#[derive(Debug)]
pub enum LogicError {
    /// The key reported an index outside the table: `index >= len`.
    IndexOutOfRange { index: usize, len: usize },
    /// No handler is bound to the key with this index.
    UnknownKey { index: usize },
    /// The bound handler ran and failed; its error is carried unchanged.
    Handler(anyhow::Error),
}

/// `h` may be called on every application state and every input.
pub open spec fn accepts_all<A, R, H: FnMut(&mut A, R) -> Result<(), anyhow::Error>>(h: H) -> bool {
    forall|state: &mut A, input: R| #[trigger] call_requires(h, (state, input))
}

/// `key` reports one index only, however often it is asked.
pub open spec fn single_index<K: LogicKey>(key: K) -> bool {
    forall|i: usize, j: usize| index_of(key, i) && index_of(key, j) ==> i == j
}

/// The handler that `table` binds to `index`, if any.
pub open spec fn bound<H>(table: Seq<Option<H>>, index: nat) -> Option<H> {
    if index < table.len() {
        table[index as int]
    } else {
        None
    }
}

/// `table` with `h` bound to `index`, in place of whatever was bound there.
/// An index outside the table binds nothing.
pub open spec fn bind<H>(table: Seq<Option<H>>, index: nat, h: H) -> Seq<Option<H>> {
    if index < table.len() {
        table.update(index as int, Some(h))
    } else {
        table
    }
}

/// Why a table of `len` places has no handler to run for `index`, given that
/// it has none: the index is outside the table, or nothing is bound to it.
pub open spec fn missing(index: usize, len: nat) -> LogicError {
    if index < len {
        LogicError::UnknownKey { index }
    } else {
        LogicError::IndexOutOfRange { index, len: len as usize }
    }
}

/// What a dispatch returns for a handler's verdict.
pub open spec fn verdict_result(verdict: Result<(), anyhow::Error>) -> Result<(), LogicError> {
    match verdict {
        Ok(()) => Ok(()),
        Err(e) => Err(LogicError::Handler(e)),
    }
}

/// `after` is the recorder `before` once it has observed `key`: a recorder
/// that is switched off stays off, and one that is on has `key` as its
/// newest entry, within its capacity.
pub open spec fn observed<K>(
    before: Option<LowBullWatcher<K>>,
    key: K,
    after: Option<LowBullWatcher<K>>,
) -> bool {
    match (before, after) {
        (Some(b), Some(a)) => {
            &&& a.spec_capacity() == b.spec_capacity()
            &&& a.keys() == newest(b.keys().push(key), b.spec_capacity())
        },
        (None, None) => true,
        _ => false,
    }
}

/// A handler that was bound to an index inside the table is the one found
/// there afterwards, and every other index finds what it found before: a
/// dispatch on that index runs this handler and no other.
pub proof fn lemma_bound_after_bind<H>(table: Seq<Option<H>>, index: nat, h: H)
    ensures
        bind(table, index, h).len() == table.len(),
        index < table.len() ==> bound(bind(table, index, h), index) == Some(h),
        index >= table.len() ==> bind(table, index, h) == table,
        forall|other: nat|
            other != index ==> #[trigger] bound(bind(table, index, h), other) == bound(
                table,
                other,
            ),
{
}

/// Binding a second handler to an index leaves no trace of the first: the
/// table is the one that binding the second alone would have given, and the
/// index finds the second handler.
pub proof fn lemma_rebind_replaces<H>(table: Seq<Option<H>>, index: nat, first: H, second: H)
    ensures
        bind(bind(table, index, first), index, second) == bind(table, index, second),
        index < table.len() ==> bound(bind(bind(table, index, first), index, second), index)
            == Some(second),
{
    if index < table.len() {
        assert(table.update(index as int, Some(first)).update(index as int, Some(second))
            =~= table.update(index as int, Some(second)));
    }
}

/// For a key that reports one index only: once `h` is registered for it
/// under an index inside the table, every later dispatch of the key finds
/// `h`, and registering `h2` for it afterwards makes every dispatch find
/// `h2`.
pub proof fn lemma_registered_key_finds_handler<K: LogicKey, H>(
    table: Seq<Option<H>>,
    key: K,
    h: H,
    h2: H,
    registered: usize,
    dispatched: usize,
)
    requires
        single_index(key),
        index_of(key, registered),
        index_of(key, dispatched),
        registered < table.len(),
    ensures
        bound(bind(table, registered as nat, h), dispatched as nat) == Some(h),
        bound(bind(bind(table, registered as nat, h), registered as nat, h2), dispatched as nat)
            == Some(h2),
{
}

/// An index without a handler has an error to report, and which one tells
/// whether the index lies inside the table.
pub proof fn lemma_missing_tells_why(index: usize, len: nat)
    ensures
        missing(index, len) is UnknownKey <==> index < len,
        missing(index, len) is IndexOutOfRange <==> index >= len,
        !(missing(index, len) is Handler),
{
}

/// A value stored under an index is the value found under it, other indices
/// find what they found before, and an empty store finds nothing.
pub proof fn lemma_stored_value_is_found(values: Map<usize, UiValue>, index: usize, value: UiValue)
    ensures
        values.insert(index, value).contains_key(index),
        values.insert(index, value)[index] == value,
        forall|other: usize|
            other != index ==> (#[trigger] values.insert(index, value).contains_key(other)
                <==> values.contains_key(other)),
        forall|other: usize|
            other != index && values.contains_key(other) ==> #[trigger] values.insert(
                index,
                value,
            )[other] == values[other],
        !Map::<usize, UiValue>::empty().contains_key(index),
{
}

/// Turns a handler's verdict into the result of the dispatch: success stays
/// success, and a failure is carried unchanged inside
/// [`LogicError::Handler`].
pub fn report(verdict: Result<(), anyhow::Error>) -> (res: Result<(), LogicError>)
    ensures
        res == verdict_result(verdict),
{
    match verdict {
        Ok(()) => Ok(()),
        Err(e) => Err(LogicError::Handler(e)),
    }
}

/// A registry of handlers over one application state.
///
/// `K` is the key type, `A` the application state, `R` the input handed to
/// a handler, and `H` the handler type.
pub struct LowBullMaster<K, A, R, H> {
    application: A,
    logic_actions: Vec<Option<H>>,
    ui_values: HashMap<usize, UiValue>,
    recorder: Option<LowBullWatcher<K>>,
    marker: PhantomData<R>,
}

impl<K: LogicKey, A, R, H: FnMut(&mut A, R) -> Result<(), anyhow::Error>> LowBullMaster<K, A, R, H> {
    /// The application state.
    pub closed spec fn state(&self) -> A {
        self.application
    }

    /// The binding table: place `i` holds the handler bound to the keys
    /// whose index is `i`.
    pub closed spec fn bindings(&self) -> Seq<Option<H>> {
        self.logic_actions@
    }

    /// The stored values, by the index of the key they were stored under.
    pub closed spec fn values(&self) -> Map<usize, UiValue> {
        self.ui_values@
    }

    /// The recorder of dispatched keys, if the registry was made with one.
    pub closed spec fn spec_recorder(&self) -> Option<LowBullWatcher<K>> {
        self.recorder
    }

    /// Every bound handler may be called on every state and input.
    pub open spec fn well_formed(&self) -> bool {
        forall|i: int|
            0 <= i < self.bindings().len() ==> (#[trigger] self.bindings()[i] matches Some(h)
                ==> accepts_all::<A, R, H>(h))
    }

    /// A registry around `application` with one unbound place for every
    /// index of the key domain, no stored values and no recorder.
    pub fn new(application: A) -> (master: Self)
        ensures
            master.well_formed(),
            master.state() == application,
            exists|len: usize| #[trigger] domain_len::<K>(len) && master.bindings().len() == len,
            forall|i: int| 0 <= i < master.bindings().len() ==> master.bindings()[i] is None,
            master.values() == Map::<usize, UiValue>::empty(),
            master.spec_recorder() is None,
    {
        Self::assemble(application, None)
    }

    /// A registry like that of [`LowBullMaster::new`] that also remembers
    /// the last `history_size` keys that were dispatched.
    pub fn with_history(application: A, history_size: usize) -> (master: Self)
        ensures
            master.well_formed(),
            master.state() == application,
            exists|len: usize| #[trigger] domain_len::<K>(len) && master.bindings().len() == len,
            forall|i: int| 0 <= i < master.bindings().len() ==> master.bindings()[i] is None,
            master.values() == Map::<usize, UiValue>::empty(),
            master.spec_recorder() matches Some(w) && w.keys() == Seq::<K>::empty()
                && w.spec_capacity() == history_size,
    {
        let watcher: LowBullWatcher<K> = LowBullWatcher::new(history_size);
        assert(watcher.keys() =~= Seq::<K>::empty());
        Self::assemble(application, Some(watcher))
    }

    fn assemble(application: A, recorder: Option<LowBullWatcher<K>>) -> (master: Self)
        ensures
            master.well_formed(),
            master.state() == application,
            exists|len: usize| #[trigger] domain_len::<K>(len) && master.bindings().len() == len,
            forall|i: int| 0 <= i < master.bindings().len() ==> master.bindings()[i] is None,
            master.values() == Map::<usize, UiValue>::empty(),
            master.spec_recorder() == recorder,
    {
        let len: usize = K::len();
        assert(domain_len::<K>(len));
        let mut logic_actions: Vec<Option<H>> = Vec::with_capacity(len);
        let mut i: usize = 0;
        while i < len
            invariant
                i <= len,
                logic_actions@.len() == i,
                forall|j: int| 0 <= j < i ==> logic_actions@[j] is None,
            decreases len - i,
        {
            logic_actions.push(None);
            i += 1;
        }
        LowBullMaster {
            application,
            logic_actions,
            ui_values: HashMap::new(),
            recorder,
            marker: PhantomData,
        }
    }

    /// The application state.
    pub fn application(&self) -> (application: &A)
        ensures
            *application == self.state(),
    {
        &self.application
    }

    /// The recorder of dispatched keys, if the registry was made with one.
    pub fn recorder(&self) -> (recorder: Option<&LowBullWatcher<K>>)
        ensures
            match recorder {
                Some(w) => self.spec_recorder() == Some(*w),
                None => self.spec_recorder() is None,
            },
    {
        self.recorder.as_ref()
    }

    /// Binds `action` to `key`, replacing the handler bound before, if any.
    ///
    /// A key whose index lies outside the table is rejected, and nothing
    /// changes.
    ///
    /// A handler must be callable on every application state and every
    /// input, as every function and closure that states no precondition is:
    /// a dispatch hands it whatever state and input it has.
    pub fn register_logic(&mut self, key: K, action: H) -> (res: Result<(), LogicError>)
        requires
            old(self).well_formed(),
            accepts_all::<A, R, H>(action),
        ensures
            final(self).well_formed(),
            final(self).state() == old(self).state(),
            final(self).values() == old(self).values(),
            final(self).spec_recorder() == old(self).spec_recorder(),
            exists|index: usize|
                {
                    &&& #[trigger] index_of(key, index)
                    &&& final(self).bindings() == bind(old(self).bindings(), index as nat, action)
                    &&& res == if index < old(self).bindings().len() {
                        Ok::<(), LogicError>(())
                    } else {
                        Err(missing(index, old(self).bindings().len()))
                    }
                },
    {
        let index: usize = key.to_index();
        assert(index_of(key, index));
        let len: usize = self.logic_actions.len();
        if index < len {
            self.logic_actions.set(index, Some(action));
            Ok(())
        } else {
            Err(LogicError::IndexOutOfRange { index, len })
        }
    }

    /// Runs the handler bound to `key` on the application state with
    /// `response`, and returns what it reported.
    ///
    /// Without a handler for `key` the application state is left as it was
    /// and an error says why: the key's index is outside the table, or
    /// nothing is bound to it. The binding table and the stored values are
    /// never changed. A registry with a recorder records `key` first,
    /// whether or not a handler is bound to it.
    pub fn run_logic(&mut self, key: K, response: R) -> (res: Result<(), LogicError>)
        requires
            old(self).well_formed(),
        ensures
            final(self).well_formed(),
            final(self).bindings() == old(self).bindings(),
            final(self).values() == old(self).values(),
            observed(old(self).spec_recorder(), key, final(self).spec_recorder()),
            exists|index: usize|
                #![trigger index_of(key, index)]
                index_of(key, index) && match bound(old(self).bindings(), index as nat) {
                    Some(h) => exists|state: &mut A, verdict: Result<(), anyhow::Error>|
                        {
                            &&& mut_ref_current(state) == old(self).state()
                            &&& mut_ref_future(state) == final(self).state()
                            &&& #[trigger] call_ensures(h, (state, response), verdict)
                            &&& res == verdict_result(verdict)
                        },
                    None => {
                        &&& final(self).state() == old(self).state()
                        &&& res == Err::<(), LogicError>(
                            missing(index, old(self).bindings().len()),
                        )
                    },
                },
    {
        let index: usize = key.to_index();
        assert(index_of(key, index));
        match &mut self.recorder {
            Some(watcher) => watcher.watch(key),
            None => {},
        }
        let len: usize = self.logic_actions.len();
        if index >= len {
            return Err(LogicError::IndexOutOfRange { index, len });
        }
        match &mut self.logic_actions[index] {
            Some(action) => {
                let verdict = action(&mut self.application, response);
                report(verdict)
            },
            None => Err(LogicError::UnknownKey { index }),
        }
    }

    /// Stores `value` under `key`, in place of the value stored there
    /// before, if any.
    pub fn set_ui_value(&mut self, key: K, value: UiValue)
        ensures
            final(self).state() == old(self).state(),
            final(self).bindings() == old(self).bindings(),
            final(self).spec_recorder() == old(self).spec_recorder(),
            exists|index: usize|
                {
                    &&& #[trigger] index_of(key, index)
                    &&& final(self).values() == old(self).values().insert(index, value)
                },
    {
        broadcast use vstd::std_specs::hash::group_hash_axioms;

        let index: usize = key.to_index();
        assert(index_of(key, index));
        self.ui_values.insert(index, value);
    }

    /// The value stored under `key`, for reading and for changing in place;
    /// `None` if nothing is stored under it.
    ///
    /// Whatever the caller writes through the reference is what the store
    /// holds under `key` afterwards; nothing else changes.
    pub fn get_mut_ui_value(&mut self, key: K) -> (value: Option<&mut UiValue>)
        ensures
            final(self).state() == old(self).state(),
            final(self).bindings() == old(self).bindings(),
            final(self).spec_recorder() == old(self).spec_recorder(),
            exists|index: usize|
                #![trigger index_of(key, index)]
                index_of(key, index) && match value {
                    Some(v) => {
                        &&& old(self).values().contains_key(index)
                        &&& *v == old(self).values()[index]
                        &&& final(self).values() == old(self).values().insert(index, *final(v))
                    },
                    None => {
                        &&& !old(self).values().contains_key(index)
                        &&& final(self).values() == old(self).values()
                    },
                },
    {
        broadcast use vstd::std_specs::hash::group_hash_axioms;

        let index: usize = key.to_index();
        assert(index_of(key, index));
        match self.ui_values.entry(index) {
            Entry::Occupied(occupied) => Some(occupied.into_mut()),
            Entry::Vacant(_) => None,
        }
    }
}

} // verus!
