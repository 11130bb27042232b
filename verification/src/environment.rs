//! Scopes: a stack of frames that bind names, for type checking and for running.
use vstd::prelude::*;

use crate::types::{Type, Value};

verus! {

/// The frames of names and their types, innermost last.
///
/// Each frame is a list of bindings, searched from the latest back, and viewed as a `Map`
/// in which a later binding of a name hides an earlier one. A frame is not a `HashMap`
/// keyed by `String`: vstd specifies `HashMap` only for keys that obey its key model
/// (`obeys_key_model`), which it establishes for integers and `bool` but not for `String`
/// and which could be had here only by assuming it, so nothing of a lookup would be proved.
pub struct TypeCheckEnv {
    stack: Vec<Vec<(String, Type)>>,
}

/// The bindings of one frame: a later binding of a name hides an earlier one.
pub open spec fn type_frame_view(f: Seq<(String, Type)>) -> Map<Seq<char>, Type>
    decreases f.len(),
{
    if f.len() == 0 {
        Map::empty()
    } else {
        type_frame_view(f.drop_last()).insert(f.last().0@, f.last().1)
    }
}

/// What a name is bound to in a stack of frames: the innermost binding.
pub open spec fn lookup<V>(stack: Seq<Map<Seq<char>, V>>, name: Seq<char>) -> Option<V>
    decreases stack.len(),
{
    if stack.len() == 0 {
        None
    } else if stack.last().contains_key(name) {
        Some(stack.last()[name])
    } else {
        lookup(stack.drop_last(), name)
    }
}

/// Binding `name` to `v` in the innermost frame: looking `name` up then gives `v`, and
/// every other name is found as before.
pub proof fn lemma_lookup_after_bind<V>(
    stack: Seq<Map<Seq<char>, V>>,
    name: Seq<char>,
    v: V,
    other: Seq<char>,
)
    requires
        stack.len() > 0,
    ensures
        lookup(stack.update(stack.len() - 1, stack.last().insert(name, v)), name) == Some(v),
        other != name ==> lookup(stack.update(stack.len() - 1, stack.last().insert(name, v)), other)
            == lookup(stack, other),
{
    let bound = stack.update(stack.len() - 1, stack.last().insert(name, v));
    assert(bound.last() == stack.last().insert(name, v));
    assert(bound.drop_last() =~= stack.drop_last());
}

/// Opening a frame hides no name, and closing it again gives back the scopes as they were.
pub proof fn lemma_lookup_after_push<V>(stack: Seq<Map<Seq<char>, V>>, name: Seq<char>)
    ensures
        lookup(stack.push(Map::empty()), name) == lookup(stack, name),
        stack.push(Map::empty()).drop_last() == stack,
{
    assert(stack.push(Map::empty()).drop_last() =~= stack);
}

/// The stack after binding each name of `binds` to its value, in order, in the innermost
/// frame.
pub open spec fn bind_all<V>(stack: Seq<Map<Seq<char>, V>>, binds: Seq<(Seq<char>, V)>) -> Seq<
    Map<Seq<char>, V>,
>
    decreases binds.len(),
{
    if binds.len() == 0 {
        stack
    } else {
        let s = bind_all(stack, binds.drop_last());
        s.update(s.len() - 1, s.last().insert(binds.last().0, binds.last().1))
    }
}

/// Opening a frame, binding any names in it and closing it again gives back the stack as
/// it was, so every name is found as before.
pub proof fn lemma_pop_undoes_push_and_binds<V>(
    stack: Seq<Map<Seq<char>, V>>,
    binds: Seq<(Seq<char>, V)>,
    name: Seq<char>,
)
    ensures
        bind_all(stack.push(Map::empty()), binds).len() == stack.len() + 1,
        bind_all(stack.push(Map::empty()), binds).drop_last() == stack,
        lookup(bind_all(stack.push(Map::empty()), binds).drop_last(), name) == lookup(stack, name),
    decreases binds.len(),
{
    if binds.len() == 0 {
        assert(stack.push(Map::empty()).drop_last() =~= stack);
    } else {
        lemma_pop_undoes_push_and_binds(stack, binds.drop_last(), name);
        let s = bind_all(stack.push(Map::empty()), binds.drop_last());
        let t = s.update(s.len() - 1, s.last().insert(binds.last().0, binds.last().1));
        assert(t.drop_last() =~= s.drop_last());
    }
}

impl View for TypeCheckEnv {
    type V = Seq<Map<Seq<char>, Type>>;

    closed spec fn view(&self) -> Seq<Map<Seq<char>, Type>> {
        Seq::new(self.stack@.len(), |i: int| type_frame_view(self.stack@[i]@))
    }
}

impl Default for TypeCheckEnv {
    fn default() -> (r: Self)
        ensures
            r@ == Seq::<Map<Seq<char>, Type>>::empty(),
    {
        Self::new()
    }
}

/// The binding of `name` in a frame, searched from the latest binding back.
fn find_in_type_frame(f: &Vec<(String, Type)>, name: &String) -> (r: Option<Type>)
    ensures
        r == (if type_frame_view(f@).contains_key(name@) {
            Some(type_frame_view(f@)[name@])
        } else {
            None
        }),
{
    let mut i = f.len();
    proof {
        assert(f@.take(f@.len() as int) =~= f@);
    }
    while i > 0
        invariant
            i <= f@.len(),
            forall|k: int| i <= k < f@.len() ==> f@[k].0@ != name@,
            type_frame_view(f@).contains_key(name@) == type_frame_view(f@.take(i as int)).contains_key(
                name@,
            ),
            type_frame_view(f@).contains_key(name@) ==> type_frame_view(f@)[name@]
                == type_frame_view(f@.take(i as int))[name@],
        decreases i,
    {
        proof {
            assert(f@.take(i as int).drop_last() =~= f@.take(i - 1));
            assert(f@.take(i as int).last() == f@[i - 1]);
        }
        if f[i - 1].0 == *name {
            return Some(f[i - 1].1.clone());
        }
        i = i - 1;
    }
    proof {
        assert(f@.take(0) =~= Seq::<(String, Type)>::empty());
    }
    None
}

impl TypeCheckEnv {
    /// An empty scope stack: no frame is open.
    pub fn new() -> (r: Self)
        ensures
            r@ == Seq::<Map<Seq<char>, Type>>::empty(),
    {
        let r = Self { stack: Vec::new() };
        assert(r@ =~= Seq::<Map<Seq<char>, Type>>::empty());
        r
    }

    /// Opens an empty innermost frame.
    pub fn push_frame(&mut self)
        ensures
            final(self)@ == old(self)@.push(Map::empty()),
    {
        self.stack.push(Vec::new());
        assert(self@ =~= old(self)@.push(Map::empty()));
    }

    /// Closes the innermost frame, which must exist.
    pub fn pop_frame(&mut self)
        requires
            old(self)@.len() > 0,
        ensures
            final(self)@ == old(self)@.drop_last(),
    {
        let _ = self.stack.pop();
        assert(self@ =~= old(self)@.drop_last());
    }

    /// Binds `ident` to `type` in the innermost frame, which must exist.
    pub fn insert(&mut self, ident: String, ty: Type)
        requires
            old(self)@.len() > 0,
        ensures
            final(self)@ == old(self)@.update(
                old(self)@.len() - 1,
                old(self)@.last().insert(ident@, ty),
            ),
    {
        let ghost key = ident@;
        let ghost t = ty;
        let mut frame = self.stack.pop().unwrap();
        proof {
            assert(frame@.push((ident, ty)).drop_last() =~= frame@);
        }
        frame.push((ident, ty));
        self.stack.push(frame);
        assert(self@ =~= old(self)@.update(old(self)@.len() - 1, old(self)@.last().insert(key, t)));
    }

    /// The type that `ident` is bound to in the innermost frame that binds it.
    pub fn get(&mut self, ident: &String) -> (r: Option<Type>)
        ensures
            final(self)@ == old(self)@,
            r == lookup(old(self)@, ident@),
    {
        let mut i = self.stack.len();
        let ghost all = self@;
        proof {
            assert(all.take(all.len() as int) =~= all);
        }
        while i > 0
            invariant
                i <= self.stack@.len(),
                all == self@,
                lookup(all, ident@) == lookup(all.take(i as int), ident@),
            decreases i,
        {
            proof {
                assert(all.take(i as int).drop_last() =~= all.take(i - 1));
                assert(all.take(i as int).last() == all[i - 1]);
            }
            let found = find_in_type_frame(&self.stack[i - 1], ident);
            if found.is_some() {
                return found;
            }
            i = i - 1;
        }
        None
    }
}

/// The frames of names and the values bound to them, innermost last.
///
/// Each frame is a list of bindings, searched from the latest back, and viewed as a `Map`
/// in which a later binding of a name hides an earlier one. A frame is not a `HashMap`
/// keyed by `String`: vstd specifies `HashMap` only for keys that obey its key model
/// (`obeys_key_model`), which it establishes for integers and `bool` but not for `String`
/// and which could be had here only by assuming it, so nothing of a lookup would be proved.
pub struct RunTimeEnv {
    stack: Vec<Vec<(String, Value)>>,
}

/// The bindings of a frame: a later binding of a name hides an earlier one.
pub open spec fn value_frame_view(f: Seq<(String, Value)>) -> Map<Seq<char>, Value>
    decreases f.len(),
{
    if f.len() == 0 {
        Map::empty()
    } else {
        value_frame_view(f.drop_last()).insert(f.last().0@, f.last().1)
    }
}

impl View for RunTimeEnv {
    type V = Seq<Map<Seq<char>, Value>>;

    closed spec fn view(&self) -> Seq<Map<Seq<char>, Value>> {
        Seq::new(self.stack@.len(), |i: int| value_frame_view(self.stack@[i]@))
    }
}

impl Default for RunTimeEnv {
    fn default() -> (r: Self)
        ensures
            r@ == Seq::<Map<Seq<char>, Value>>::empty(),
    {
        Self::new()
    }
}

fn find_in_value_frame(f: &Vec<(String, Value)>, name: &String) -> (r: Option<Value>)
    ensures
        r == (if value_frame_view(f@).contains_key(name@) {
            Some(value_frame_view(f@)[name@])
        } else {
            None
        }),
{
    let mut i = f.len();
    proof {
        assert(f@.take(f@.len() as int) =~= f@);
    }
    while i > 0
        invariant
            i <= f@.len(),
            forall|k: int| i <= k < f@.len() ==> f@[k].0@ != name@,
            value_frame_view(f@).contains_key(name@) == value_frame_view(
                f@.take(i as int),
            ).contains_key(name@),
            value_frame_view(f@).contains_key(name@) ==> value_frame_view(f@)[name@]
                == value_frame_view(f@.take(i as int))[name@],
        decreases i,
    {
        proof {
            assert(f@.take(i as int).drop_last() =~= f@.take(i - 1));
            assert(f@.take(i as int).last() == f@[i - 1]);
        }
        if f[i - 1].0 == *name {
            return Some(f[i - 1].1.clone());
        }
        i = i - 1;
    }
    proof {
        assert(f@.take(0) =~= Seq::<(String, Value)>::empty());
    }
    None
}

impl RunTimeEnv {
    /// An empty scope stack: no frame is open.
    pub fn new() -> (r: Self)
        ensures
            r@ == Seq::<Map<Seq<char>, Value>>::empty(),
    {
        let r = Self { stack: Vec::new() };
        assert(r@ =~= Seq::<Map<Seq<char>, Value>>::empty());
        r
    }

    /// Opens an empty innermost frame.
    pub fn push_frame(&mut self)
        ensures
            final(self)@ == old(self)@.push(Map::empty()),
    {
        self.stack.push(Vec::new());
        assert(self@ =~= old(self)@.push(Map::empty()));
    }

    /// Closes the innermost frame, which must exist.
    pub fn pop_frame(&mut self)
        requires
            old(self)@.len() > 0,
        ensures
            final(self)@ == old(self)@.drop_last(),
    {
        let _ = self.stack.pop();
        assert(self@ =~= old(self)@.drop_last());
    }

    /// The value that `ident` is bound to in the innermost frame that binds it.
    pub fn get(&mut self, ident: &String) -> (r: Option<Value>)
        ensures
            final(self)@ == old(self)@,
            r == lookup(old(self)@, ident@),
    {
        let mut i = self.stack.len();
        let ghost all = self@;
        proof {
            assert(all.take(all.len() as int) =~= all);
        }
        while i > 0
            invariant
                i <= self.stack@.len(),
                all == self@,
                lookup(all, ident@) == lookup(all.take(i as int), ident@),
            decreases i,
        {
            proof {
                assert(all.take(i as int).drop_last() =~= all.take(i - 1));
                assert(all.take(i as int).last() == all[i - 1]);
            }
            let found = find_in_value_frame(&self.stack[i - 1], ident);
            if found.is_some() {
                return found;
            }
            i = i - 1;
        }
        None
    }

    /// Binds `name` in the innermost frame, which must exist, to the process `process`
    /// that the caller has started.
    pub fn spawn(&mut self, name: String, process: usize)
        requires
            old(self)@.len() > 0,
        ensures
            final(self)@ == old(self)@.update(
                old(self)@.len() - 1,
                old(self)@.last().insert(name@, Value::Process(process)),
            ),
    {
        let ghost key = name@;
        let mut frame = self.stack.pop().unwrap();
        proof {
            assert(frame@.push((name, Value::Process(process))).drop_last() =~= frame@);
        }
        frame.push((name, Value::Process(process)));
        self.stack.push(frame);
        assert(self@ =~= old(self)@.update(
            old(self)@.len() - 1,
            old(self)@.last().insert(key, Value::Process(process)),
        ));
    }
}

} // verus!
