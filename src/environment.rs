//! Lexical scopes: a stack of frames, each mapping names to values.
use vstd::prelude::*;
use crate::error::{Error, ErrorV};
use crate::token::{Token, TokenV};
use crate::typer::{Typer, TyperV};

verus! {

/// One name bound to a value.
pub struct Binding {
    pub name: String,
    pub value: Typer,
}

/// The model of a scope chain: frames from the outermost to the innermost.
pub type EnvV = Seq<Map<Seq<char>, TyperV>>;

/// The map that a list of bindings makes, a later binding of a name
/// overriding an earlier one.
pub open spec fn frame_map(bs: Seq<Binding>) -> Map<Seq<char>, TyperV>
    decreases bs.len(),
{
    if bs.len() == 0 {
        Map::empty()
    } else {
        frame_map(bs.drop_last()).insert(bs.last().name@, bs.last().value@)
    }
}

/// The value of a name in the nearest frame that defines it.
pub open spec fn lookup(env: EnvV, name: Seq<char>) -> Option<TyperV>
    decreases env.len(),
{
    if env.len() == 0 {
        None
    } else if env.last().contains_key(name) {
        Some(env.last()[name])
    } else {
        lookup(env.drop_last(), name)
    }
}

/// The chain after assigning `v` to `name` in the nearest frame that
/// defines it; absent when no frame does.
pub open spec fn assign_in(env: EnvV, name: Seq<char>, v: TyperV) -> Option<EnvV>
    decreases env.len(),
{
    if env.len() == 0 {
        None
    } else if env.last().contains_key(name) {
        Some(env.update(env.len() - 1, env.last().insert(name, v)))
    } else {
        match assign_in(env.drop_last(), name, v) {
            Some(outer) => Some(outer.push(env.last())),
            None => None,
        }
    }
}

/// The chain after binding `name` to `v` in the innermost frame.
pub open spec fn define_in(env: EnvV, name: Seq<char>, v: TyperV) -> EnvV {
    if env.len() == 0 {
        seq![Map::empty().insert(name, v)]
    } else {
        env.update(env.len() - 1, env.last().insert(name, v))
    }
}

pub open spec fn runtime_error(token: TokenV, message: Seq<char>) -> ErrorV {
    ErrorV::Runtime { token: Some(token), message }
}

/// A name can be assigned exactly when some frame defines it; assigning
/// keeps the number of frames, and the name then reads back the value
/// assigned.
pub proof fn lemma_assign_reads_back(env: EnvV, name: Seq<char>, v: TyperV)
    ensures
        assign_in(env, name, v) is Some <==> lookup(env, name) is Some,
        assign_in(env, name, v) is Some ==> ({
            let after = assign_in(env, name, v)->0;
            &&& after.len() == env.len()
            &&& lookup(after, name) == Some(v)
        }),
    decreases env.len(),
{
    if env.len() > 0 && !env.last().contains_key(name) {
        lemma_assign_reads_back(env.drop_last(), name, v);
        if let Some(outer) = assign_in(env.drop_last(), name, v) {
            let after = outer.push(env.last());
            assert(after.drop_last() =~= outer);
        }
    } else if env.len() > 0 {
        let after = env.update(env.len() - 1, env.last().insert(name, v));
        assert(after.last() == env.last().insert(name, v));
    }
}

/// A definition binds the name in the innermost frame: the name then reads
/// back the value, and a chain with at least one frame keeps its depth.
pub proof fn lemma_define_reads_back(env: EnvV, name: Seq<char>, v: TyperV)
    ensures
        lookup(define_in(env, name, v), name) == Some(v),
        env.len() >= 1 ==> define_in(env, name, v).len() == env.len(),
        env.len() >= 1 ==> define_in(env, name, v).drop_last() == env.drop_last(),
{
    let after = define_in(env, name, v);
    assert(after.last() == if env.len() == 0 {
        Map::<Seq<char>, TyperV>::empty().insert(name, v)
    } else {
        env.last().insert(name, v)
    });
    if env.len() >= 1 {
        assert(after.drop_last() =~= env.drop_last());
    }
}

/// The chain of scopes, the global frame first.
pub struct Environment {
    frames: Vec<Vec<Binding>>,
}

proof fn lemma_frame_unmatched_suffix(bs: Seq<Binding>, j: int, name: Seq<char>)
    requires
        0 <= j <= bs.len(),
        forall|i: int| j <= i < bs.len() ==> (#[trigger] bs[i]).name@ != name,
    ensures
        frame_map(bs).contains_key(name) == frame_map(bs.take(j)).contains_key(name),
        frame_map(bs).contains_key(name) ==> frame_map(bs)[name] == frame_map(bs.take(j))[name],
    decreases bs.len(),
{
    if bs.len() == j {
        assert(bs.take(j) =~= bs);
    } else {
        lemma_frame_unmatched_suffix(bs.drop_last(), j, name);
        assert(bs.drop_last().take(j) =~= bs.take(j));
    }
}

proof fn lemma_frame_update(bs: Seq<Binding>, i: int, b: Binding)
    requires
        0 <= i < bs.len(),
        bs[i].name@ == b.name@,
        forall|k: int| i < k < bs.len() ==> (#[trigger] bs[k]).name@ != b.name@,
    ensures
        frame_map(bs.update(i, b)) == frame_map(bs).insert(b.name@, b.value@),
    decreases bs.len(),
{
    if i == bs.len() - 1 {
        assert(bs.update(i, b).drop_last() =~= bs.drop_last());
        assert(frame_map(bs.update(i, b)) =~= frame_map(bs).insert(b.name@, b.value@));
    } else {
        lemma_frame_update(bs.drop_last(), i, b);
        assert(bs.update(i, b).drop_last() =~= bs.drop_last().update(i, b));
        assert(frame_map(bs.update(i, b)) =~= frame_map(bs).insert(b.name@, b.value@));
    }
}

/// Finds the last binding of `name` in a frame.
fn find_in_frame(bs: &Vec<Binding>, name: &String) -> (r: Option<usize>)
    ensures
        match r {
            Some(i) => {
                &&& i < bs@.len()
                &&& bs@[i as int].name@ == name@
                &&& forall|k: int| i < k < bs@.len() ==> (#[trigger] bs@[k]).name@ != name@
                &&& frame_map(bs@).contains_key(name@)
                &&& frame_map(bs@)[name@] == bs@[i as int].value@
            },
            None => !frame_map(bs@).contains_key(name@),
        },
{
    let mut j = bs.len();
    while j > 0
        invariant
            j <= bs@.len(),
            forall|k: int| j <= k < bs@.len() ==> (#[trigger] bs@[k]).name@ != name@,
        decreases j,
    {
        if bs[j - 1].name.eq(name) {
            proof {
                lemma_frame_unmatched_suffix(bs@, j as int, name@);
                assert(bs@.take(j as int).drop_last() =~= bs@.take(j - 1));
            }
            return Some(j - 1);
        }
        j = j - 1;
    }
    proof {
        lemma_frame_unmatched_suffix(bs@, 0, name@);
        assert(bs@.take(0) =~= Seq::<Binding>::empty());
    }
    None
}

impl Environment {
    pub closed spec fn view_frames(&self) -> EnvV {
        self.frames@.map_values(|f: Vec<Binding>| frame_map(f@))
    }

    /// An environment with one empty global frame.
    pub fn new_empty_env() -> (r: Self)
        ensures
            r@ == seq![Map::<Seq<char>, TyperV>::empty()],
    {
        let mut frames: Vec<Vec<Binding>> = Vec::new();
        frames.push(Vec::new());
        let r = Environment { frames };
        assert(r@ =~= seq![Map::<Seq<char>, TyperV>::empty()]);
        r
    }

    /// A new empty frame enclosed by `enclosing`.
    pub fn new(enclosing: Self) -> (r: Self)
        ensures
            r@ == enclosing@.push(Map::empty()),
    {
        let mut r = enclosing;
        r.push_scope();
        r
    }

    /// Enters a new innermost frame.
    pub fn push_scope(&mut self)
        ensures
            final(self)@ == old(self)@.push(Map::empty()),
    {
        let ghost before = self.frames@;
        self.frames.push(Vec::new());
        assert(self@ =~= old(self)@.push(Map::empty()));
    }

    /// Leaves the innermost frame; the global frame is never left.
    pub fn pop_scope(&mut self)
        ensures
            old(self)@.len() > 1 ==> final(self)@ == old(self)@.drop_last(),
            old(self)@.len() <= 1 ==> final(self)@ == old(self)@,
    {
        if self.frames.len() > 1 {
            self.frames.pop();
            assert(self@ =~= old(self)@.drop_last());
        }
    }

    /// The value of a name, from the nearest frame that defines it.
    pub fn get(&self, name: &Token) -> (r: Result<Typer, Error>)
        ensures
            match lookup(self@, name.lexeme@) {
                Some(v) => r matches Ok(x) && x@ == v,
                None => r matches Err(e) && e@ == runtime_error(
                    name@,
                    "Undefined variable '"@ + name.lexeme@ + "'."@,
                ),
            },
    {
        let mut k = self.frames.len();
        assert(self@.take(k as int) =~= self@);
        while k > 0
            invariant
                k <= self.frames@.len(),
                lookup(self@, name.lexeme@) == lookup(self@.take(k as int), name.lexeme@),
            decreases k,
        {
            let ghost env = self@.take(k as int);
            assert(env.drop_last() =~= self@.take(k - 1));
            match find_in_frame(&self.frames[k - 1], &name.lexeme) {
                Some(i) => {
                    return Ok(self.frames[k - 1][i].value.clone());
                },
                None => {},
            }
            k = k - 1;
        }
        let mut message = String::from_str("Undefined variable '");
        message.append(name.lexeme.as_str());
        message.append("'.");
        Err(Error::RuntimeError { token: Some(name.clone()), message })
    }

    /// Binds a name in the innermost frame; defining with no value does
    /// nothing.
    pub fn define(&mut self, name: String, value: Option<Typer>)
        ensures
            match value {
                Some(v) => final(self)@ == define_in(old(self)@, name@, v@),
                None => final(self)@ == old(self)@,
            },
    {
        if let Some(v) = value {
            if self.frames.len() == 0 {
                self.frames.push(Vec::new());
            }
            let ghost start = self@;
            let last = self.frames.len() - 1;
            let mut frame: Vec<Binding> = Vec::new();
            self.frames.set_and_swap(last, &mut frame);
            let ghost old_frame = frame@;
            match find_in_frame(&frame, &name) {
                Some(i) => {
                    let b = Binding { name, value: v };
                    proof {
                        lemma_frame_update(frame@, i as int, b);
                    }
                    frame.set(i, b);
                },
                None => {
                    let b = Binding { name, value: v };
                    frame.push(b);
                    assert(frame@.drop_last() =~= old_frame);
                },
            }
            self.frames.set_and_swap(last, &mut frame);
            assert(self@ =~= define_in(start, name@, v@));
            assert(define_in(start, name@, v@) =~= define_in(old(self)@, name@, v@));
        }
    }

    /// Assigns to a name in the nearest frame that defines it; a name that
    /// no frame defines is an error and changes nothing.
    pub fn assign(&mut self, name: &Token, value: Typer) -> (r: Result<(), Error>)
        ensures
            match assign_in(old(self)@, name.lexeme@, value@) {
                Some(env) => r is Ok && final(self)@ == env,
                None => final(self)@ == old(self)@ && (r matches Err(e) && e@ == runtime_error(
                    name@,
                    "Undefined variable: "@ + name.lexeme@,
                )),
            },
    {
        let mut k = self.frames.len();
        proof {
            assert(self@.take(k as int) =~= self@);
            match assign_in(self@, name.lexeme@, value@) {
                Some(inner) => {
                    assert(inner + self@.skip(k as int) =~= inner);
                },
                None => {},
            }
        }
        while k > 0
            invariant
                k <= self.frames@.len(),
                self.frames@ == old(self).frames@,
                assign_in(self@, name.lexeme@, value@) == match assign_in(
                    self@.take(k as int),
                    name.lexeme@,
                    value@,
                ) {
                    Some(inner) => Some(inner + self@.skip(k as int)),
                    None => None::<EnvV>,
                },
            decreases k,
        {
            let ghost env = self@.take(k as int);
            assert(env.drop_last() =~= self@.take(k - 1));
            match find_in_frame(&self.frames[k - 1], &name.lexeme) {
                Some(i) => {
                    let mut frame: Vec<Binding> = Vec::new();
                    self.frames.set_and_swap(k - 1, &mut frame);
                    let b = Binding { name: name.lexeme.clone(), value };
                    proof {
                        lemma_frame_update(frame@, i as int, b);
                    }
                    frame.set(i, b);
                    self.frames.set_and_swap(k - 1, &mut frame);
                    assert(self@ =~= env.update(k - 1, env.last().insert(name.lexeme@, value@))
                        + old(self)@.skip(k as int));
                    return Ok(());
                },
                None => {
                    proof {
                        match assign_in(env.drop_last(), name.lexeme@, value@) {
                            Some(outer) => {
                                assert(outer.push(env.last()) + self@.skip(k as int) =~= outer
                                    + self@.skip(k - 1));
                            },
                            None => {},
                        }
                    }
                },
            }
            k = k - 1;
        }
        let mut message = String::from_str("Undefined variable: ");
        message.append(name.lexeme.as_str());
        Err(Error::RuntimeError { token: Some(name.clone()), message })
    }

    /// A copy of the whole chain.
    pub fn copy(&self) -> (r: Self)
        ensures
            r@ == self@,
    {
        let mut frames: Vec<Vec<Binding>> = Vec::new();
        let mut k: usize = 0;
        while k < self.frames.len()
            invariant
                k <= self.frames@.len(),
                frames@.len() == k,
                forall|j: int| 0 <= j < k ==> frame_map(#[trigger] frames@[j]@) == frame_map(
                    self.frames@[j]@,
                ),
            decreases self.frames@.len() - k,
        {
            let src = &self.frames[k];
            let mut f: Vec<Binding> = Vec::new();
            let mut i: usize = 0;
            while i < src.len()
                invariant
                    i <= src@.len(),
                    f@.len() == i,
                    forall|j: int| 0 <= j < i ==> (#[trigger] f@[j]).name@ == src@[j].name@
                        && f@[j].value == src@[j].value,
                decreases src@.len() - i,
            {
                f.push(Binding { name: src[i].name.clone(), value: src[i].value.clone() });
                i = i + 1;
            }
            proof {
                lemma_frame_same(f@, src@);
            }
            frames.push(f);
            k = k + 1;
        }
        let r = Environment { frames };
        assert(r@ =~= self@);
        r
    }
}

proof fn lemma_frame_same(a: Seq<Binding>, b: Seq<Binding>)
    requires
        a.len() == b.len(),
        forall|j: int| 0 <= j < a.len() ==> (#[trigger] a[j]).name@ == b[j].name@ && a[j].value
            == b[j].value,
    ensures
        frame_map(a) == frame_map(b),
    decreases a.len(),
{
    if a.len() > 0 {
        lemma_frame_same(a.drop_last(), b.drop_last());
    }
}

impl View for Environment {
    type V = EnvV;

    closed spec fn view(&self) -> EnvV {
        self.view_frames()
    }
}

} // verus!
