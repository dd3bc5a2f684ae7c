//! Environments: the global table, the arena of local frames with the
//! chains that run through it, and name resolution over both.
use vstd::prelude::*;
use vstd::hash_map::StringHashMap;
use crate::value::{chain_ok, value_ok, Chain, Error, Value};

verus! {

/// One layer of a local chain: names, one slot for each, and the chain
/// below.
pub struct Frame<'ast> {
    names: &'ast Vec<String>,
    slots: Vec<Value<'ast>>,
    parent: Chain,
}

/// A frame as plain data.
pub struct FrameView<'ast> {
    pub names: Seq<String>,
    pub slots: Seq<Value<'ast>>,
    pub parent: Chain,
}

/// The arena of frames. A frame is never removed, so a handle stays good
/// for as long as the arena lives, whoever holds it.
pub struct LEnv<'ast> {
    frames: Vec<Frame<'ast>>,
}

/// The global table.
pub struct GEnv<'ast> {
    table: StringHashMap<Value<'ast>>,
}

/// All that a name can resolve against: the current local chain, the arena
/// it lives in, and the globals.
pub struct Env<'ast> {
    locals: Chain,
    frames: LEnv<'ast>,
    globals: GEnv<'ast>,
}

/// An environment as plain data.
pub struct EnvView<'ast> {
    pub locals: Chain,
    pub frames: Seq<FrameView<'ast>>,
    pub globals: Map<Seq<char>, Value<'ast>>,
}

/// The slot that a frame with these names gives to `name`: that of its last
/// occurrence, so that a later declaration shadows an earlier one.
pub open spec fn slot_of(names: Seq<String>, name: Seq<char>) -> Option<int>
    decreases names.len(),
{
    if names.len() == 0 {
        None
    } else if names.last()@ == name {
        Some(names.len() - 1)
    } else {
        slot_of(names.drop_last(), name)
    }
}

/// How far a chain handle is from the empty chain, at most.
pub open spec fn chain_rank(c: Chain) -> nat {
    match c {
        None => 0,
        Some(i) => i as nat + 1,
    }
}

/// The frame and slot that `name` resolves to along a chain, innermost
/// frame first.
pub open spec fn find_local(frames: Seq<FrameView>, chain: Chain, name: Seq<char>) -> Option<
    (int, int),
>
    decreases chain_rank(chain),
{
    match chain {
        None => None,
        Some(i) => if i < frames.len() {
            match slot_of(frames[i as int].names, name) {
                Some(j) => Some((i as int, j)),
                None => if chain_rank(frames[i as int].parent) < chain_rank(chain) {
                    find_local(frames, frames[i as int].parent, name)
                } else {
                    None
                },
            }
        } else {
            None
        },
    }
}

/// The slots of a new frame of `n` names: the values in order, `Nil` where
/// they run out; values beyond the names are dropped.
pub open spec fn fill<'ast>(n: nat, values: Seq<Value<'ast>>) -> Seq<Value<'ast>> {
    Seq::new(
        n,
        |i: int|
            if i < values.len() {
                values[i]
            } else {
                Value::Nil
            },
    )
}

/// A frame at place `i` of an arena of `n` frames is in order when it links
/// to an earlier frame only, has one slot for each name, and holds values
/// whose chains point into the arena.
pub open spec fn frame_ok(f: FrameView, i: int, n: nat) -> bool {
    &&& chain_ok(f.parent, i as nat)
    &&& f.slots.len() == f.names.len()
    &&& forall|j: int| 0 <= j < f.slots.len() ==> value_ok(#[trigger] f.slots[j], n)
}

/// Every frame of the arena is in order.
pub open spec fn frames_ok(frames: Seq<FrameView>) -> bool {
    forall|i: int| 0 <= i < frames.len() ==> frame_ok(#[trigger] frames[i], i, frames.len())
}

impl<'ast> View for Frame<'ast> {
    type V = FrameView<'ast>;

    closed spec fn view(&self) -> FrameView<'ast> {
        FrameView { names: self.names@, slots: self.slots@, parent: self.parent }
    }
}

impl<'ast> View for LEnv<'ast> {
    type V = Seq<FrameView<'ast>>;

    closed spec fn view(&self) -> Seq<FrameView<'ast>> {
        self.frames@.map_values(|f: Frame<'ast>| f@)
    }
}

impl<'ast> View for GEnv<'ast> {
    type V = Map<Seq<char>, Value<'ast>>;

    closed spec fn view(&self) -> Map<Seq<char>, Value<'ast>> {
        self.table@
    }
}

impl<'ast> View for Env<'ast> {
    type V = EnvView<'ast>;

    closed spec fn view(&self) -> EnvView<'ast> {
        EnvView { locals: self.locals, frames: self.frames@, globals: self.globals@ }
    }
}

impl<'ast> EnvView<'ast> {
    /// The arena is in order, the current chain points into it, and so does
    /// every chain held by a global.
    pub open spec fn wf(self) -> bool {
        &&& frames_ok(self.frames)
        &&& chain_ok(self.locals, self.frames.len())
        &&& forall|k: Seq<char>| #[trigger]
            self.globals.contains_key(k) ==> value_ok(self.globals[k], self.frames.len())
    }

    /// What a name resolves to: the innermost local binding, else the
    /// global one, else nothing.
    pub open spec fn lookup(self, name: String) -> Result<Value<'ast>, Error<'ast>> {
        match find_local(self.frames, self.locals, name@) {
            Some((i, j)) => Ok(self.frames[i].slots[j]),
            None => if self.globals.contains_key(name@) {
                Ok(self.globals[name@])
            } else {
                Err(Error::UndefinedVariable(name))
            },
        }
    }

    /// The environment after an assignment: the innermost local slot of
    /// that name takes the value; where there is none, the global of that
    /// name does, new or not.
    pub open spec fn set(self, name: String, value: Value<'ast>) -> EnvView<'ast> {
        match find_local(self.frames, self.locals, name@) {
            Some((i, j)) => EnvView {
                frames: self.frames.update(
                    i,
                    FrameView { slots: self.frames[i].slots.update(j, value), ..self.frames[i] },
                ),
                ..self
            },
            None => EnvView { globals: self.globals.insert(name@, value), ..self },
        }
    }

    /// The environment with one more frame, layered on `parent`. The
    /// current chain stays as it is.
    pub open spec fn extend(self, parent: Chain, names: Seq<String>, values: Seq<Value<'ast>>) -> EnvView<'ast> {
        EnvView {
            frames: self.frames.push(
                FrameView { names, slots: fill(names.len(), values), parent },
            ),
            ..self
        }
    }

    /// What a name resolves to in an environment in order points into its
    /// arena.
    pub proof fn lemma_lookup_ok(self, name: String)
        requires
            self.wf(),
        ensures
            self.lookup(name) matches Ok(v) ==> value_ok(v, self.frames.len()),
    {
        lemma_find_local_in_bounds(self.frames, self.locals, name@);
        if let Some((i, j)) = find_local(self.frames, self.locals, name@) {
            assert(frame_ok(self.frames[i], i, self.frames.len()));
        }
    }

    /// The environment with another current chain.
    pub open spec fn enter(self, chain: Chain) -> EnvView<'ast> {
        EnvView { locals: chain, ..self }
    }
}

impl<'ast> Frame<'ast> {
    /// The slot of `name` in this frame.
    fn find(&self, name: &String) -> (r: Option<usize>)
        ensures
            match r {
                Some(j) => j < self@.names.len() && slot_of(self@.names, name@) == Some(j as int),
                None => slot_of(self@.names, name@) is None,
            },
    {
        let mut i: usize = self.names.len();
        assert(self.names@.subrange(0, i as int) =~= self.names@);
        while i > 0
            invariant
                i <= self.names@.len(),
                slot_of(self.names@, name@) == slot_of(self.names@.subrange(0, i as int), name@),
            decreases i,
        {
            i -= 1;
            let ghost upto = self.names@.subrange(0, i + 1);
            assert(upto.last() == self.names@[i as int]);
            assert(upto.drop_last() =~= self.names@.subrange(0, i as int));
            if self.names[i] == *name {
                return Some(i);
            }
        }
        None
    }
}

impl<'ast> LEnv<'ast> {
    /// An arena without frames.
    fn new() -> (r: Self)
        ensures
            r@ == Seq::<FrameView<'ast>>::empty(),
    {
        let r = LEnv { frames: Vec::new() };
        assert(r@ =~= Seq::<FrameView<'ast>>::empty());
        r
    }

    /// Frame `i`.
    fn frame(&self, i: usize) -> (r: &Frame<'ast>)
        requires
            i < self@.len(),
        ensures
            r@ == self@[i as int],
    {
        &self.frames[i]
    }

    /// Adds a frame on top of `parent` and hands back the chain that
    /// starts with it.
    fn extend(&mut self, parent: Chain, names: &'ast Vec<String>, values: Vec<Value<'ast>>) -> (r:
        Chain)
        ensures
            r == Some(old(self)@.len() as usize),
            final(self)@ == old(self)@.push(
                FrameView { names: names@, slots: fill(names@.len(), values@), parent },
            ),
    {
        let mut slots = values;
        slots.truncate(names.len());
        while slots.len() < names.len()
            invariant
                slots@.len() <= names@.len(),
                slots@.len() >= values@.len() || slots@.len() == names@.len(),
                forall|j: int|
                    0 <= j < slots@.len() ==> slots@[j] == fill(names@.len(), values@)[j],
            decreases names@.len() - slots@.len(),
        {
            slots.push(Value::Nil);
        }
        assert(slots@ =~= fill(names@.len(), values@));
        let at: usize = self.frames.len();
        let frame = Frame { names, slots, parent };
        self.frames.push(frame);
        assert(self@ =~= old(self)@.push(frame@));
        Some(at)
    }

    /// Puts `value` into slot `j` of frame `i`.
    fn assign(&mut self, i: usize, j: usize, value: Value<'ast>)
        requires
            i < old(self)@.len(),
            j < old(self)@[i as int].slots.len(),
        ensures
            final(self)@ == old(self)@.update(
                i as int,
                FrameView {
                    slots: old(self)@[i as int].slots.update(j as int, value),
                    ..old(self)@[i as int]
                },
            ),
    {
        self.frames[i].slots[j] = value;
        assert(self@ =~= old(self)@.update(
            i as int,
            FrameView {
                slots: old(self)@[i as int].slots.update(j as int, value),
                ..old(self)@[i as int]
            },
        ));
    }
}

impl<'ast> GEnv<'ast> {
    /// A table without bindings.
    pub fn new() -> (r: Self)
        ensures
            r@ == Map::<Seq<char>, Value<'ast>>::empty(),
    {
        GEnv { table: StringHashMap::new() }
    }

    /// The value bound to `name`.
    pub fn get(&self, name: &String) -> (r: Result<Value<'ast>, Error<'ast>>)
        ensures
            r == if self@.contains_key(name@) {
                Ok::<Value<'ast>, Error<'ast>>(self@[name@])
            } else {
                Err(Error::UndefinedVariable(*name))
            },
    {
        match self.table.get(name.as_str()) {
            Some(v) => Ok(v.clone()),
            None => Err(Error::UndefinedVariable(name.clone())),
        }
    }

    /// Binds `name` to `value`, whether or not it was bound before.
    pub fn set(&mut self, name: &String, value: Value<'ast>)
        ensures
            final(self)@ == old(self)@.insert(name@, value),
    {
        self.table.insert(name.clone(), value);
    }
}

/// Under a chain that points into an arena in order, a name resolves to a
/// slot that exists.
pub proof fn lemma_find_local_in_bounds(frames: Seq<FrameView>, chain: Chain, name: Seq<char>)
    requires
        frames_ok(frames),
        chain_ok(chain, frames.len()),
    ensures
        find_local(frames, chain, name) matches Some((i, j)) ==> 0 <= i < frames.len() && 0 <= j
            < frames[i].slots.len(),
    decreases chain_rank(chain),
{
    if let Some(i) = chain {
        lemma_slot_of_in_bounds(frames[i as int].names, name);
        if slot_of(frames[i as int].names, name) is None {
            lemma_find_local_in_bounds(frames, frames[i as int].parent, name);
        }
    }
}

/// The slot of a name is one of the frame's, and holds that name; no later
/// slot does.
pub proof fn lemma_slot_of_in_bounds(names: Seq<String>, name: Seq<char>)
    ensures
        match slot_of(names, name) {
            Some(j) => 0 <= j < names.len() && names[j]@ == name && forall|k: int|
                j < k < names.len() ==> names[k]@ != name,
            None => forall|k: int| 0 <= k < names.len() ==> names[k]@ != name,
        },
    decreases names.len(),
{
    if names.len() > 0 && names.last()@ != name {
        let shorter = names.drop_last();
        lemma_slot_of_in_bounds(shorter, name);
        assert(forall|k: int| 0 <= k < shorter.len() ==> shorter[k] == names[k]);
    }
}

impl<'ast> Env<'ast> {
    /// An environment with these globals, no frame and the empty chain.
    pub fn new(globals: GEnv<'ast>) -> (r: Self)
        requires
            forall|k: Seq<char>| #[trigger] globals@.contains_key(k) ==> value_ok(globals@[k], 0),
        ensures
            r@ == (EnvView { locals: None, frames: Seq::empty(), globals: globals@ }),
            r@.wf(),
    {
        Env { locals: None, frames: LEnv::new(), globals }
    }

    /// The current chain.
    pub fn current(&self) -> (r: Chain)
        ensures
            r == self@.locals,
    {
        self.locals
    }

    /// Makes `chain` the current chain.
    pub fn enter(&mut self, chain: Chain)
        requires
            old(self)@.wf(),
            chain_ok(chain, old(self)@.frames.len()),
        ensures
            final(self)@ == old(self)@.enter(chain),
            final(self)@.wf(),
    {
        self.locals = chain;
    }

    /// Resolves a name: the innermost local binding, else the global one.
    pub fn lookup(&self, name: &String) -> (r: Result<Value<'ast>, Error<'ast>>)
        requires
            self@.wf(),
        ensures
            r == self@.lookup(*name),
    {
        let mut cur: Chain = self.locals;
        while cur.is_some()
            invariant
                self@.wf(),
                chain_ok(cur, self@.frames.len()),
                find_local(self@.frames, cur, name@) == find_local(
                    self@.frames,
                    self@.locals,
                    name@,
                ),
            decreases chain_rank(cur),
        {
            let i: usize = cur.unwrap();
            let frame = self.frames.frame(i);
            match frame.find(name) {
                Some(j) => {
                    return Ok(frame.slots[j].clone());
                },
                None => {
                    cur = frame.parent;
                },
            }
        }
        self.globals.get(name)
    }

    /// Assigns to a name: the innermost local slot of that name, else the
    /// global table.
    pub fn set(&mut self, name: &String, value: Value<'ast>)
        requires
            old(self)@.wf(),
            value_ok(value, old(self)@.frames.len()),
        ensures
            final(self)@ == old(self)@.set(*name, value),
            final(self)@.wf(),
            final(self)@.frames.len() == old(self)@.frames.len(),
            final(self)@.locals == old(self)@.locals,
    {
        let mut cur: Chain = self.locals;
        while cur.is_some()
            invariant
                *self == *old(self),
                self@.wf(),
                value_ok(value, self@.frames.len()),
                chain_ok(cur, self@.frames.len()),
                find_local(self@.frames, cur, name@) == find_local(
                    self@.frames,
                    self@.locals,
                    name@,
                ),
            decreases chain_rank(cur),
        {
            let i: usize = cur.unwrap();
            let frame = self.frames.frame(i);
            let found = frame.find(name);
            let parent = frame.parent;
            match found {
                Some(j) => {
                    self.frames.assign(i, j, value);
                    proof {
                        let before = old(self)@.frames;
                        let now = self@.frames;
                        assert forall|k: int| 0 <= k < now.len() implies frame_ok(
                            #[trigger] now[k],
                            k,
                            now.len(),
                        ) by {
                            assert(frame_ok(before[k], k, before.len()));
                        }
                    }
                    return ;
                },
                None => {
                    cur = parent;
                },
            }
        }
        self.globals.set(name, value);
    }

    /// Adds a frame of `names` on top of `parent`, filled with `values` in
    /// order, and hands back the chain that starts with it. The current
    /// chain stays as it is.
    pub fn extend(&mut self, parent: Chain, names: &'ast Vec<String>, values: Vec<Value<'ast>>) -> (r:
        Chain)
        requires
            old(self)@.wf(),
            chain_ok(parent, old(self)@.frames.len()),
            forall|j: int| 0 <= j < values@.len() ==> value_ok(#[trigger] values@[j], old(self)@.frames.len()),
        ensures
            r == Some(old(self)@.frames.len() as usize),
            final(self)@ == old(self)@.extend(parent, names@, values@),
            final(self)@.wf(),
    {
        let r = self.frames.extend(parent, names, values);
        proof {
            let n = old(self)@.frames.len();
            let now = self@.frames;
            assert forall|i: int| 0 <= i < now.len() implies frame_ok(#[trigger] now[i], i, now.len()) by {
                if i < n {
                    assert(frame_ok(old(self)@.frames[i], i, n));
                }
            }
        }
        r
    }
}

} // verus!
