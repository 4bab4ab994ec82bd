//! The module calls of a project, as the planner reports them.

use crate::node::{count_view, keys_view};
use crate::text::{lemma_texts, texts};
use vstd::prelude::*;

verus! {

/// A module: its calls by name, in the order of the document, or no mapping at
/// all for a module that calls nothing.
#[derive(Debug, PartialEq, Eq)]
pub struct Module {
    pub module_calls: Option<Vec<(String, ModuleCall)>>,
}

/// One named instantiation of a child module.
#[derive(Debug, PartialEq, Eq)]
pub struct ModuleCall {
    /// The directory of the child module, as the configuration declares it.
    pub source: String,
    /// The module that the call expands to.
    pub module: Module,
    /// The number of instances, where the call is counted.
    pub count: Option<usize>,
    /// The keys of the instances, where the call is keyed.
    pub for_each: Option<Vec<String>>,
}

/// A whole project: its root module.
#[derive(Debug, PartialEq, Eq)]
pub struct ModuleDocument {
    pub root_module: Module,
}

/// A module as plain values.
pub ghost struct ModuleView {
    pub calls: Option<Seq<(Seq<char>, CallView)>>,
}

/// A module call as plain values.
pub ghost struct CallView {
    pub source: Seq<char>,
    pub module: ModuleView,
    pub count: Option<nat>,
    pub for_each: Option<Seq<Seq<char>>>,
}

/// The plain values of a module.
pub open spec fn module_view(module: Module) -> ModuleView
    decreases module,
{
    ModuleView {
        calls: match module.module_calls {
            None => None,
            Some(calls) => Some(calls_view(calls@)),
        },
    }
}

/// The plain values of named calls.
pub open spec fn calls_view(calls: Seq<(String, ModuleCall)>) -> Seq<(Seq<char>, CallView)>
    decreases calls,
{
    if calls.len() == 0 {
        Seq::empty()
    } else {
        calls_view(calls.drop_last()).push((calls.last().0@, call_view(calls.last().1)))
    }
}

/// The plain values of a module call.
pub open spec fn call_view(call: ModuleCall) -> CallView
    decreases call,
{
    CallView {
        source: call.source@,
        module: module_view(call.module),
        count: count_view(call.count),
        for_each: keys_view(call.for_each),
    }
}

impl View for Module {
    type V = ModuleView;

    open spec fn view(&self) -> ModuleView {
        module_view(*self)
    }
}

impl View for ModuleCall {
    type V = CallView;

    open spec fn view(&self) -> CallView {
        call_view(*self)
    }
}

impl View for ModuleDocument {
    type V = ModuleView;

    open spec fn view(&self) -> ModuleView {
        module_view(self.root_module)
    }
}

impl ModuleView {
    /// How deep the calls nest: 0 for a module that calls nothing.
    pub open spec fn depth(self) -> nat
        decreases self,
    {
        match self.calls {
            None => 0,
            Some(calls) => Self::deepest(calls),
        }
    }

    /// The greatest number of levels that any of `calls` opens, itself included.
    pub open spec fn deepest(calls: Seq<(Seq<char>, CallView)>) -> nat
        decreases calls,
    {
        if calls.len() == 0 {
            0
        } else {
            let before = Self::deepest(calls.drop_last());
            let last = 1 + calls.last().1.module.depth();
            if last > before {
                last
            } else {
                before
            }
        }
    }
}

/// The plain values of named calls, one by one.
pub proof fn lemma_calls_view(calls: Seq<(String, ModuleCall)>)
    ensures
        calls_view(calls).len() == calls.len(),
        forall|i: int|
            0 <= i < calls.len() ==> #[trigger] calls_view(calls)[i] == (calls[i].0@, calls[i].1@),
    decreases calls.len(),
{
    if calls.len() > 0 {
        lemma_calls_view(calls.drop_last());
    }
}

/// The first place at which `calls` holds a call named `name`.
pub open spec fn place_of(calls: Seq<(Seq<char>, CallView)>, name: Seq<char>) -> Option<int>
    decreases calls.len(),
{
    if calls.len() == 0 {
        None
    } else {
        match place_of(calls.drop_last(), name) {
            Some(place) => Some(place),
            None => if calls.last().0 == name {
                Some(calls.len() - 1)
            } else {
                None
            },
        }
    }
}

/// The calls with `call` under the name `name`: in the place of the call that
/// had the name, or at the end where none had it.
pub open spec fn with_call(
    calls: Seq<(Seq<char>, CallView)>,
    name: Seq<char>,
    call: CallView,
) -> Seq<(Seq<char>, CallView)> {
    match place_of(calls, name) {
        Some(place) => calls.update(place, (name, call)),
        None => calls.push((name, call)),
    }
}

/// The keys with `key` among them: as they are where it is one of them, else
/// with `key` at the end.
pub open spec fn with_key(keys: Seq<Seq<char>>, key: Seq<char>) -> Seq<Seq<char>> {
    if keys.contains(key) {
        keys
    } else {
        keys.push(key)
    }
}

/// The names of the calls, in their order.
pub open spec fn names(calls: Seq<(Seq<char>, CallView)>) -> Seq<Seq<char>> {
    Seq::new(calls.len(), |i: int| calls[i].0)
}

impl ModuleView {
    /// The calls of the module: none where it has no mapping.
    pub open spec fn calls_or_none(self) -> Seq<(Seq<char>, CallView)> {
        match self.calls {
            Some(calls) => calls,
            None => Seq::empty(),
        }
    }

    /// No name stands for two calls of one module and no key twice among the
    /// keys of one call, here and in the modules below.
    pub open spec fn wf(self) -> bool
        decreases self,
    {
        match self.calls {
            None => true,
            Some(calls) => {
                &&& names(calls).no_duplicates()
                &&& forall|i: int| 0 <= i < calls.len() ==> (#[trigger] calls[i]).1.wf()
            },
        }
    }
}

impl CallView {
    /// The keys are distinct and the module of the call is well formed.
    pub open spec fn wf(self) -> bool
        decreases self,
    {
        &&& self.module.wf()
        &&& self.for_each matches Some(keys) ==> keys.no_duplicates()
    }
}

/// What holds of the first place of a name: it is a place of the name, and no
/// place before it is; there is none only where no call has the name.
pub proof fn lemma_place_of(calls: Seq<(Seq<char>, CallView)>, name: Seq<char>)
    ensures
        match place_of(calls, name) {
            Some(place) => {
                &&& 0 <= place < calls.len()
                &&& calls[place].0 == name
                &&& forall|i: int| 0 <= i < place ==> (#[trigger] calls[i]).0 != name
            },
            None => forall|i: int| 0 <= i < calls.len() ==> (#[trigger] calls[i]).0 != name,
        },
    decreases calls.len(),
{
    if calls.len() > 0 {
        lemma_place_of(calls.drop_last(), name);
        match place_of(calls.drop_last(), name) {
            Some(place) => {
                assert forall|i: int| 0 <= i < place implies (#[trigger] calls[i]).0 != name by {
                    assert(calls.drop_last()[i] == calls[i]);
                }
            },
            None => {
                assert forall|i: int| 0 <= i < calls.len() - 1 implies (#[trigger] calls[i]).0
                    != name by {
                    assert(calls.drop_last()[i] == calls[i]);
                }
            },
        }
    }
}

/// Putting a well-formed call under a name keeps the calls well formed.
pub proof fn lemma_with_call_keeps_wf(module: ModuleView, name: Seq<char>, call: CallView)
    requires
        module.wf(),
        call.wf(),
    ensures
        (ModuleView { calls: Some(with_call(module.calls_or_none(), name, call)) }).wf(),
{
    let calls = module.calls_or_none();
    let after = with_call(calls, name, call);
    lemma_place_of(calls, name);
    assert(names(calls).no_duplicates());
    assert forall|i: int, j: int|
        0 <= i < names(after).len() && 0 <= j < names(after).len() && i != j implies names(
        after,
    )[i] != names(after)[j] by {
        if i < calls.len() && j < calls.len() {
            assert(names(calls)[i] != names(calls)[j]);
        }
    }
    assert forall|i: int| 0 <= i < after.len() implies (#[trigger] after[i]).1.wf() by {}
}

impl Module {
    /// A module that calls nothing.
    pub fn new() -> (module: Module)
        ensures
            module@ == (ModuleView { calls: None }),
    {
        Module { module_calls: None }
    }

    /// Puts `call` under the name `name`, as a map does: in the place of the
    /// call that had the name, or behind the others where none had it.
    #[verifier::loop_isolation(false)]
    pub fn insert(&mut self, name: String, call: ModuleCall)
        ensures
            final(self)@.calls == Some(with_call(old(self)@.calls_or_none(), name@, call@)),
            old(self)@.wf() && call@.wf() ==> final(self)@.wf(),
    {
        let mut calls: Vec<(String, ModuleCall)> = match self.module_calls.take() {
            Some(calls) => calls,
            None => Vec::new(),
        };
        let ghost before = calls@;
        proof {
            lemma_calls_view(before);
            if old(self)@.wf() && call@.wf() {
                lemma_with_call_keeps_wf(old(self)@, name@, call@);
            }
        }
        let mut place: Option<usize> = None;
        let mut i: usize = 0;
        while i < calls.len() && place.is_none()
            invariant
                i <= calls.len(),
                match place {
                    Some(place) => place < calls.len() && place_of(calls_view(before), name@)
                        == Some(place as int),
                    None => place_of(calls_view(before.take(i as int)), name@) is None,
                },
            decreases calls.len() - i,
        {
            proof {
                assert(before.take(i + 1).drop_last() == before.take(i as int));
                assert(calls_view(before.take(i + 1)).drop_last() == calls_view(
                    before.take(i as int),
                ));
                lemma_calls_view(before.take(i + 1));
            }
            if calls[i].0 == name {
                proof {
                    assert(calls_view(before).take(i + 1) =~= calls_view(before.take(i + 1)));
                    lemma_place_in_prefix(calls_view(before), name@, i + 1);
                }
                place = Some(i);
            }
            i = i + 1;
        }
        match place {
            Some(place) => {
                calls.set(place, (name, call));
                proof {
                    lemma_calls_view(calls@);
                    assert(calls_view(calls@) =~= calls_view(before).update(
                        place as int,
                        (name@, call@),
                    ));
                }
            },
            None => {
                assert(before.take(i as int) == before);
                calls.push((name, call));
                assert(calls@.drop_last() == before);
            },
        }
        self.module_calls = Some(calls);
    }
}

/// The first place of a name among the first calls is its first place among
/// all of them.
pub proof fn lemma_place_in_prefix(calls: Seq<(Seq<char>, CallView)>, name: Seq<char>, n: int)
    requires
        0 <= n <= calls.len(),
        place_of(calls.take(n), name) is Some,
    ensures
        place_of(calls, name) == place_of(calls.take(n), name),
    decreases calls.len(),
{
    if n < calls.len() {
        assert(calls.drop_last().take(n) == calls.take(n));
        lemma_place_in_prefix(calls.drop_last(), name, n);
    } else {
        assert(calls.take(n) == calls);
    }
}

impl ModuleCall {
    /// A call of `module` at `source`, neither counted nor keyed.
    pub fn new(source: String, module: Module) -> (call: ModuleCall)
        ensures
            call@ == (CallView { source: source@, module: module@, count: None, for_each: None }),
    {
        ModuleCall { source, module, count: None, for_each: None }
    }

    /// Makes `key` one of the keys of the call, as a set does: a key that is
    /// there already stays where it is, a new one goes behind the others.
    #[verifier::loop_isolation(false)]
    pub fn insert_key(&mut self, key: String)
        ensures
            final(self)@ == (CallView {
                for_each: Some(
                    with_key(
                        match old(self)@.for_each {
                            Some(keys) => keys,
                            None => Seq::empty(),
                        },
                        key@,
                    ),
                ),
                ..old(self)@
            }),
            old(self)@.wf() ==> final(self)@.wf(),
    {
        let ghost held = match old(self)@.for_each {
            Some(keys) => keys,
            None => Seq::empty(),
        };
        let mut keys: Vec<String> = match self.for_each.take() {
            Some(keys) => keys,
            None => Vec::new(),
        };
        proof {
            lemma_texts(keys@);
        }
        let mut found = false;
        let mut i: usize = 0;
        while i < keys.len() && !found
            invariant
                i <= keys.len(),
                found ==> held.contains(key@),
                !found ==> forall|j: int| 0 <= j < i ==> (#[trigger] keys@[j])@ != key@,
            decreases keys.len() - i,
        {
            if keys[i] == key {
                assert(held[i as int] == key@);
                found = true;
            }
            i = i + 1;
        }
        if !found {
            let ghost before = keys@;
            keys.push(key);
            assert(keys@.drop_last() == before);
        }
        self.for_each = Some(keys);
    }
}

impl ModuleDocument {
    /// The project whose root module is `root_module`.
    pub fn new(root_module: Module) -> (document: ModuleDocument)
        ensures
            document@ == root_module@,
    {
        ModuleDocument { root_module }
    }
}

} // verus!
