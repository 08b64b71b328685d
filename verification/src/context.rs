//! The execution context: an arena of environment records forming the scope
//! chain, the explicit control-flow signal threaded through statement
//! execution, the object store that backs iterable values, and the captures
//! a closure-like body can take of the scope it runs in.
//!
//! Environments are held in an arena and popping only moves the cursor back
//! to the parent, so a capture of a scope stays readable after the scope is
//! left.

use vstd::prelude::*;
use crate::value::Value;

verus! {

/// Whether a binding is created in the innermost block scope or in the
/// nearest enclosing function scope.
#[derive(Debug, PartialEq, Eq, Clone, Copy)]
pub enum VariableScope {
    Function,
    Block,
}

/// The explicit control-flow signal: statement executors set it and the
/// enclosing loop or block inspects, consumes or propagates it.
#[derive(Debug, PartialEq)]
pub enum InterpreterState {
    Executing,
    Break(Option<String>),
    Continue(Option<String>),
    Return,
}

/// The errors this core raises or propagates.
#[derive(Debug, PartialEq)]
pub enum InterpreterError {
    /// A structural error: the shape of a node violates the grammar's
    /// runtime constraints.
    Syntax(String),
    /// A value of the wrong category where another was required.
    Type(String),
    /// A name that does not resolve to a usable binding.
    Reference(String),
    /// The context's step budget ran out before execution finished.
    Exhausted,
}

/// A name-to-value association with its mutability, initialization and
/// deletability flags.
#[derive(Debug, PartialEq)]
pub struct Binding {
    pub value: Value,
    pub mutable: bool,
    pub initialized: bool,
    pub deletable: bool,
}

/// One environment record: a binding table and a link to its parent.
#[derive(Debug, PartialEq)]
pub struct Environment {
    pub parent: Option<usize>,
    pub function_scope: bool,
    pub bindings: Vec<(String, Binding)>,
}

/// A capture of a scope taken by a closure-like body: the environment the
/// body ran in and the name it captured there.
#[derive(Debug, PartialEq)]
pub struct Capture {
    pub env: usize,
    pub name: String,
}

/// What a statement executor is allowed to do to the context: grow the
/// environment arena without touching the shape of what was already there,
/// leave the object store alone, only add captures, spend but never gain
/// step budget, and come back to the scope it started in.
pub open spec fn extends(post: Context, pre: Context) -> bool {
    &&& post.envs@.len() >= pre.envs@.len()
    &&& forall|i: int|
        0 <= i < pre.envs@.len() ==> (#[trigger] post.envs@[i]).parent == pre.envs@[i].parent
            && post.envs@[i].function_scope == pre.envs@[i].function_scope
    &&& post.objects == pre.objects
    &&& post.captures@.len() >= pre.captures@.len()
    &&& post.fuel <= pre.fuel
}

/// The frame every statement executor guarantees: a well-formed context
/// that extends the one it was given, with the cursor restored — every
/// scope an executor opens is closed on every exit path.
pub open spec fn run_frame(pre: Context, post: Context) -> bool {
    &&& post.wf()
    &&& extends(post, pre)
    &&& post.current == pre.current
}

/// `extends` composes.
pub proof fn lemma_extends_trans(a: Context, b: Context, c: Context)
    requires
        extends(b, a),
        extends(c, b),
    ensures
        extends(c, a),
{
    assert forall|i: int|
        0 <= i < a.envs@.len() implies (#[trigger] c.envs@[i]).parent == a.envs@[i].parent
        && c.envs@[i].function_scope == a.envs@[i].function_scope by {
        assert(b.envs@[i].parent == a.envs@[i].parent);
        assert(b.envs@[i].function_scope == a.envs@[i].function_scope);
    }
}

/// Creating a binding extends the context.
pub proof fn lemma_created_extends(
    pre: Context,
    post: Context,
    t: int,
    name: Seq<char>,
    mutable: bool,
    deletable: bool,
)
    requires
        pre.created_binding(post, t, name, mutable, deletable),
    ensures
        extends(post, pre),
{
    assert forall|i: int|
        0 <= i < pre.envs@.len() implies (#[trigger] post.envs@[i]).parent == pre.envs@[i].parent
        && post.envs@[i].function_scope == pre.envs@[i].function_scope by {
        if i != t {
            assert(post.envs@[i] == pre.envs@[i]);
        }
    }
}

/// Overwriting a binding extends the context.
pub proof fn lemma_updated_extends(pre: Context, post: Context, e: int, name: Seq<char>, b: Binding)
    requires
        pre.updated_binding(post, e, name, b),
    ensures
        extends(post, pre),
{
    assert forall|i: int|
        0 <= i < pre.envs@.len() implies (#[trigger] post.envs@[i]).parent == pre.envs@[i].parent
        && post.envs@[i].function_scope == pre.envs@[i].function_scope by {
        if i != e {
            assert(post.envs@[i] == pre.envs@[i]);
        }
    }
}

/// Resolution from an environment reads only the chain at or below it: two
/// contexts that agree on those records resolve alike.
pub proof fn lemma_resolve_same(a: Context, b: Context, e: int, name: Seq<char>)
    requires
        a.wf(),
        b.wf(),
        0 <= e < a.envs@.len(),
        e < b.envs@.len(),
        forall|j: int| 0 <= j <= e ==> a.envs@[j] == b.envs@[j],
    ensures
        a.resolve_in(e, name) == b.resolve_in(e, name),
    decreases e,
{
    if env_find(a.envs@[e].bindings@, name) is Some {
    } else {
        match a.envs@[e].parent {
            Option::Some(p) => {
                lemma_resolve_same(a, b, p as int, name);
            },
            Option::None => {},
        }
    }
}

/// The nearest function scope of an environment reads only the chain at or
/// below it: two contexts that agree on those records' shape agree on it.
pub proof fn lemma_function_env_same(a: Context, b: Context, e: int)
    requires
        a.wf(),
        b.wf(),
        0 <= e < a.envs@.len(),
        e < b.envs@.len(),
        forall|j: int|
            0 <= j <= e ==> (#[trigger] a.envs@[j]).parent == b.envs@[j].parent
                && a.envs@[j].function_scope == b.envs@[j].function_scope,
    ensures
        a.function_env_of(e) == b.function_env_of(e),
    decreases e,
{
    if a.envs@[e].function_scope {
    } else {
        match a.envs@[e].parent {
            Option::Some(p) => {
                lemma_function_env_same(a, b, p as int);
            },
            Option::None => {},
        }
    }
}

/// The environment a name resolves in lies at or above the start of the
/// search.
pub proof fn lemma_resolve_env_le(pre: Context, start: int, name: Seq<char>)
    requires
        pre.wf(),
        0 <= start < pre.envs@.len(),
        pre.resolve_in(start, name) is Some,
    ensures
        0 <= pre.resolve_in(start, name).unwrap().0 <= start,
    decreases start,
{
    if env_find(pre.envs@[start].bindings@, name) is Some {
    } else {
        match pre.envs@[start].parent {
            Option::Some(p) => {
                lemma_resolve_env_le(pre, p as int, name);
            },
            Option::None => {
                assert(false);
            },
        }
    }
}

/// A name that resolves nowhere on a chain is in particular absent from
/// the chain's nearest function-scope environment.
pub proof fn lemma_resolve_none_function_env(pre: Context, start: int, name: Seq<char>)
    requires
        pre.wf(),
        0 <= start < pre.envs@.len(),
        pre.resolve_in(start, name) is None,
    ensures
        env_find(pre.envs@[pre.function_env_of(start)].bindings@, name) is None,
        0 <= pre.function_env_of(start) <= start,
    decreases start,
{
    if pre.envs@[start].function_scope {
    } else {
        match pre.envs@[start].parent {
            Option::Some(p) => {
                lemma_resolve_none_function_env(pre, p as int, name);
            },
            Option::None => {
                assert(false);
            },
        }
    }
}

/// Overwriting the binding a name resolves to leaves resolution at the
/// same environment, now yielding the new binding.
pub proof fn lemma_resolve_after_overwrite(
    pre: Context,
    post: Context,
    start: int,
    name: Seq<char>,
    t: int,
    b: Binding,
)
    requires
        pre.wf(),
        post.wf(),
        post.envs@.len() == pre.envs@.len(),
        forall|j: int|
            0 <= j < pre.envs@.len() ==> (#[trigger] post.envs@[j]).parent == pre.envs@[j].parent,
        0 <= start < pre.envs@.len(),
        pre.resolve_in(start, name) is Some,
        pre.resolve_in(start, name).unwrap().0 == t,
        env_find(post.envs@[t].bindings@, name) == Some(b),
        forall|j: int|
            0 <= j < pre.envs@.len() && j != t ==> #[trigger] env_find(
                post.envs@[j].bindings@,
                name,
            ) == env_find(pre.envs@[j].bindings@, name),
    ensures
        post.resolve_in(start, name) == Some((t, b)),
    decreases start,
{
    if env_find(pre.envs@[start].bindings@, name) is Some {
        assert(start == t);
    } else {
        match pre.envs@[start].parent {
            Option::Some(p) => {
                lemma_resolve_env_le(pre, p as int, name);
                assert(start != t);
                lemma_resolve_after_overwrite(pre, post, p as int, name, t, b);
            },
            Option::None => {
                assert(false);
            },
        }
    }
}

/// A name that resolves nowhere on the chain comes to resolve to a binding
/// newly placed in the chain's nearest function-scope environment.
pub proof fn lemma_resolve_after_function_create(
    pre: Context,
    post: Context,
    start: int,
    name: Seq<char>,
    b: Binding,
)
    requires
        pre.wf(),
        post.wf(),
        post.envs@.len() == pre.envs@.len(),
        forall|j: int|
            0 <= j < pre.envs@.len() ==> (#[trigger] post.envs@[j]).parent == pre.envs@[j].parent,
        0 <= start < pre.envs@.len(),
        pre.resolve_in(start, name) is None,
        env_find(post.envs@[pre.function_env_of(start)].bindings@, name) == Some(b),
        forall|j: int|
            0 <= j < pre.envs@.len() && j != pre.function_env_of(start) ==> #[trigger] env_find(
                post.envs@[j].bindings@,
                name,
            ) == env_find(pre.envs@[j].bindings@, name),
    ensures
        0 <= pre.function_env_of(start) <= start,
        post.resolve_in(start, name) == Some((pre.function_env_of(start), b)),
    decreases start,
{
    let t = pre.function_env_of(start);
    assert(env_find(pre.envs@[start].bindings@, name) is None);
    if pre.envs@[start].function_scope {
        assert(t == start);
    } else {
        match pre.envs@[start].parent {
            Option::Some(p) => {
                assert(pre.resolve_in(p as int, name) is None);
                assert(pre.function_env_of(p as int) == t);
                lemma_resolve_after_function_create(pre, post, p as int, name, b);
                assert(start != t);
            },
            Option::None => {
                assert(start == 0);
                assert(false);
            },
        }
    }
}

/// The first binding for `name` in one environment's table.
pub open spec fn env_find(s: Seq<(String, Binding)>, name: Seq<char>) -> Option<Binding>
    decreases s.len(),
{
    if s.len() == 0 {
        None
    } else if s[0].0@ == name {
        Some(s[0].1)
    } else {
        env_find(s.drop_first(), name)
    }
}

/// Updating the first binding for a name leaves every other lookup alone.
proof fn lemma_env_find_update(s: Seq<(String, Binding)>, i: int, x: (String, Binding))
    requires
        0 <= i < s.len(),
        forall|j: int| 0 <= j < i ==> s[j].0@ != s[i].0@,
        x.0@ == s[i].0@,
    ensures
        env_find(s.update(i, x), s[i].0@) == Some(x.1),
        forall|n: Seq<char>|
            n != s[i].0@ ==> #[trigger] env_find(s.update(i, x), n) == env_find(s, n),
    decreases s.len(),
{
    let u = s.update(i, x);
    if i == 0 {
        assert(u[0] == x);
        assert(u.drop_first() =~= s.drop_first());
        assert(env_find(u, s[i].0@) == Some(x.1));
        assert forall|n: Seq<char>| n != s[i].0@ implies #[trigger] env_find(u, n) == env_find(
            s,
            n,
        ) by {
            assert(u[0].0@ == s[0].0@);
        }
    } else {
        assert(u[0] == s[0]);
        assert(u.drop_first() =~= s.drop_first().update(i - 1, x));
        assert(s.drop_first()[i - 1] == s[i]);
        assert(forall|j: int|
            0 <= j < i - 1 ==> (#[trigger] s.drop_first()[j]).0@ != s.drop_first()[i - 1].0@);
        lemma_env_find_update(s.drop_first(), i - 1, x);
        assert(s[0].0@ != s[i].0@);
        assert(env_find(u, s[i].0@) == env_find(u.drop_first(), s[i].0@));
        assert forall|n: Seq<char>| n != s[i].0@ implies #[trigger] env_find(u, n) == env_find(
            s,
            n,
        ) by {
            if s[0].0@ != n {
                assert(env_find(u, n) == env_find(u.drop_first(), n));
                assert(env_find(s, n) == env_find(s.drop_first(), n));
            }
        }
    }
}

/// Scans one environment's table for the first binding of a name.
fn find_in_env(env: &Environment, name: &String) -> (r: Option<usize>)
    ensures
        r matches Some(i) ==> i < env.bindings@.len() && env.bindings@[i as int].0@ == name@ && (
        forall|j: int| 0 <= j < i ==> env.bindings@[j].0@ != name@) && env_find(
            env.bindings@,
            name@,
        ) == Some(env.bindings@[i as int].1),
        r is None ==> env_find(env.bindings@, name@) is None,
{
    let n = env.bindings.len();
    let mut i: usize = 0;
    proof {
        assert(env.bindings@.skip(0) =~= env.bindings@);
    }
    while i < n
        invariant
            i <= n,
            n == env.bindings@.len(),
            forall|j: int| 0 <= j < i ==> env.bindings@[j].0@ != name@,
            env_find(env.bindings@, name@) == env_find(env.bindings@.skip(i as int), name@),
        decreases n - i,
    {
        let ghost tail = env.bindings@.skip(i as int);
        proof {
            assert(tail[0] == env.bindings@[i as int]);
            assert(tail.drop_first() =~= env.bindings@.skip(i + 1));
        }
        if env.bindings[i].0.eq(name) {
            return Some(i);
        }
        i = i + 1;
    }
    proof {
        assert(env.bindings@.skip(n as int).len() == 0);
    }
    None
}

/// The view of an optional label.
pub open spec fn opt_str_view(o: Option<String>) -> Option<Seq<char>> {
    match o {
        Option::None => Option::None,
        Option::Some(s) => Option::Some(s@),
    }
}

/// A pending signal's label addresses a loop when the signal carries no
/// label at all or carries exactly the loop's own label.
pub open spec fn label_matches(loop_label: Option<Seq<char>>, signal_label: Option<
    Seq<char>,
>) -> bool {
    match signal_label {
        Option::None => true,
        Option::Some(l) => loop_label == Option::Some(l),
    }
}

/// Runtime check mirroring [`label_matches`].
pub fn matches_label(loop_label: Option<&String>, signal_label: Option<&String>) -> (r: bool)
    ensures
        r == label_matches(
            match loop_label {
                Option::None => Option::None,
                Option::Some(s) => Option::Some(s@),
            },
            match signal_label {
                Option::None => Option::None,
                Option::Some(s) => Option::Some(s@),
            },
        ),
{
    match signal_label {
        Option::None => true,
        Option::Some(sl) => match loop_label {
            Option::None => false,
            Option::Some(ll) => ll.eq(sl),
        },
    }
}

/// The execution context: the environment arena with the cursor of the
/// innermost scope, the control-flow signal, the object store, and the
/// recorded captures.
#[derive(Debug)]
pub struct Context {
    pub envs: Vec<Environment>,
    pub current: usize,
    pub state: InterpreterState,
    pub objects: Vec<Vec<Value>>,
    pub captures: Vec<Capture>,
    /// The remaining step budget: unconditional loops spend one unit per
    /// pass, so that every execution provably comes to an end.
    pub fuel: u64,
}

impl Context {
    /// Arena well-formedness: parents point strictly backwards, the root is
    /// the single parentless record and is a function scope, the cursor and
    /// every capture point into the arena.
    pub open spec fn wf(self) -> bool {
        &&& 1 <= self.envs@.len()
        &&& (self.current as int) < self.envs@.len()
        &&& forall|i: int|
            0 <= i < self.envs@.len() ==> match (#[trigger] self.envs@[i]).parent {
                Option::Some(p) => p < i,
                Option::None => i == 0,
            }
        &&& self.envs@[0].parent is None
        &&& self.envs@[0].function_scope
        &&& forall|i: int|
            0 <= i < self.captures@.len() ==> ((#[trigger] self.captures@[i]).env as int)
                < self.envs@.len()
    }

    /// The innermost binding for `name` visible from environment `e`: the
    /// environment that holds it and the binding itself.
    pub open spec fn resolve_in(self, e: int, name: Seq<char>) -> Option<(int, Binding)>
        decreases e,
        when self.wf() && 0 <= e < self.envs@.len()
    {
        match env_find(self.envs@[e].bindings@, name) {
            Option::Some(b) => Option::Some((e, b)),
            Option::None => match self.envs@[e].parent {
                Option::Some(p) => self.resolve_in(p as int, name),
                Option::None => Option::None,
            },
        }
    }

    /// The nearest function-scope environment at or above `e`.
    pub open spec fn function_env_of(self, e: int) -> int
        decreases e,
        when self.wf() && 0 <= e < self.envs@.len()
    {
        if self.envs@[e].function_scope {
            e
        } else {
            match self.envs@[e].parent {
                Option::Some(p) => self.function_env_of(p as int),
                Option::None => 0,
            }
        }
    }

    /// A fresh context: one root function-scope environment, no pending
    /// signal, no objects, no captures.
    pub fn new() -> (r: Context)
        ensures
            r.wf(),
            r.envs@.len() == 1,
            r.envs@[0].bindings@.len() == 0,
            r.current == 0,
            r.state is Executing,
            r.objects@.len() == 0,
            r.captures@.len() == 0,
            r.fuel == u64::MAX,
    {
        let bindings: Vec<(String, Binding)> = Vec::new();
        let root = Environment { parent: Option::None, function_scope: true, bindings };
        let mut envs: Vec<Environment> = Vec::new();
        envs.push(root);
        let objects: Vec<Vec<Value>> = Vec::new();
        let captures: Vec<Capture> = Vec::new();
        Context {
            envs,
            current: 0,
            state: InterpreterState::Executing,
            objects,
            captures,
            fuel: u64::MAX,
        }
    }

    /// Registers an object, here a sequence of elements an iterator can
    /// walk, and returns its reference.
    pub fn add_object(&mut self, elements: Vec<Value>) -> (id: usize)
        requires
            old(self).wf(),
        ensures
            final(self).wf(),
            id == old(self).objects@.len(),
            final(self).objects@ == old(self).objects@.push(elements),
            final(self).envs == old(self).envs,
            final(self).current == old(self).current,
            final(self).state == old(self).state,
            final(self).captures == old(self).captures,
            final(self).fuel == old(self).fuel,
    {
        let id = self.objects.len();
        self.objects.push(elements);
        id
    }

    /// Opens a fresh environment as a child of the current one and moves
    /// the cursor into it.
    pub fn push(&mut self, function_scope: bool)
        requires
            old(self).wf(),
        ensures
            final(self).wf(),
            final(self).envs@.len() == old(self).envs@.len() + 1,
            final(self).envs@.subrange(0, old(self).envs@.len() as int) == old(self).envs@,
            final(self).envs@.last().parent == Option::Some(old(self).current),
            final(self).envs@.last().function_scope == function_scope,
            final(self).envs@.last().bindings@.len() == 0,
            final(self).current == old(self).envs@.len(),
            final(self).state == old(self).state,
            final(self).objects == old(self).objects,
            final(self).captures == old(self).captures,
            final(self).fuel == old(self).fuel,
    {
        let bindings: Vec<(String, Binding)> = Vec::new();
        let child = Environment {
            parent: Option::Some(self.current),
            function_scope,
            bindings,
        };
        self.current = self.envs.len();
        self.envs.push(child);
        proof {
            assert(final(self).envs@.subrange(0, old(self).envs@.len() as int) =~= old(
                self,
            ).envs@);
        }
    }

    /// Closes the current environment: the cursor moves back to the parent;
    /// the record itself stays in the arena for any capture of it.
    pub fn pop(&mut self)
        requires
            old(self).wf(),
            old(self).envs@[old(self).current as int].parent is Some,
        ensures
            final(self).wf(),
            final(self).envs == old(self).envs,
            final(self).current == old(self).envs@[old(self).current as int].parent->0,
            final(self).state == old(self).state,
            final(self).objects == old(self).objects,
            final(self).captures == old(self).captures,
            final(self).fuel == old(self).fuel,
    {
        let parent_opt = self.envs[self.current].parent;
        match parent_opt {
            Option::Some(p) => {
                self.current = p;
            },
            Option::None => {
                proof {
                    assert(false);
                }
            },
        }
    }

    /// Walks the chain from `start` outwards to the first environment that
    /// binds `name`: the environment and the slot within it.
    fn find_from(&self, start: usize, name: &String) -> (r: Option<(usize, usize)>)
        requires
            self.wf(),
            start < self.envs@.len(),
        ensures
            r matches Some(pair) ==> (pair.0 as int) < self.envs@.len() && (pair.1 as int)
                < self.envs@[pair.0 as int].bindings@.len()
                && self.envs@[pair.0 as int].bindings@[pair.1 as int].0@ == name@ && (forall|j: int|
                0 <= j < pair.1 ==> self.envs@[pair.0 as int].bindings@[j].0@ != name@)
                && self.resolve_in(start as int, name@) == Some(
                ((pair.0 as int), self.envs@[pair.0 as int].bindings@[pair.1 as int].1),
            ),
            r is None ==> self.resolve_in(start as int, name@) is None,
    {
        let mut e: usize = start;
        loop
            invariant
                self.wf(),
                (e as int) < self.envs@.len(),
                self.resolve_in(start as int, name@) == self.resolve_in(e as int, name@),
            decreases e,
        {
            match find_in_env(&self.envs[e], name) {
                Some(i) => {
                    return Some((e, i));
                },
                None => {
                    match self.envs[e].parent {
                        Option::Some(p) => {
                            e = p;
                        },
                        Option::None => {
                            return None;
                        },
                    }
                },
            }
        }
    }

    /// Whether `name` is bound anywhere on the chain from the current
    /// environment outwards.
    pub fn has_binding(&self, name: &String) -> (r: bool)
        requires
            self.wf(),
        ensures
            r == (self.resolve_in(self.current as int, name@) is Some),
    {
        match self.find_from(self.current, name) {
            Some(_) => true,
            None => false,
        }
    }

    /// The environment a binding of the given scope kind is created in:
    /// the current environment for a block-scoped binding, the nearest
    /// function-scope environment for a function-scoped one.
    #[verifier::loop_isolation(false)]
    fn declaration_env(&self, scope: VariableScope) -> (t: usize)
        requires
            self.wf(),
        ensures
            (t as int) < self.envs@.len(),
            scope is Block ==> t == self.current,
            scope is Function ==> t as int == self.function_env_of(self.current as int),
    {
        match scope {
            VariableScope::Block => self.current,
            VariableScope::Function => {
                let mut e: usize = self.current;
                loop
                    invariant
                        self.wf(),
                        (e as int) < self.envs@.len(),
                        self.function_env_of(self.current as int) == self.function_env_of(
                            e as int,
                        ),
                    decreases e,
                {
                    if self.envs[e].function_scope {
                        proof {
                            assert(self.function_env_of(e as int) == e as int);
                            assert(self.function_env_of(self.current as int) == e as int);
                        }
                        return e;
                    }
                    match self.envs[e].parent {
                        Option::Some(p) => {
                            e = p;
                        },
                        Option::None => {
                            proof {
                                assert(false);
                            }
                        },
                    }
                }
            },
        }
    }

    /// What creating a binding named `name` in environment `t` does: the
    /// new slot is appended, every other lookup is unchanged, and nothing
    /// else in the context moves.
    pub open spec fn created_binding(
        self,
        post: Context,
        t: int,
        name: Seq<char>,
        mutable: bool,
        deletable: bool,
    ) -> bool {
        &&& post.envs@.len() == self.envs@.len()
        &&& forall|j: int|
            0 <= j < self.envs@.len() && j != t ==> post.envs@[j] == #[trigger] self.envs@[j]
        &&& post.envs@[t].parent == self.envs@[t].parent
        &&& post.envs@[t].function_scope == self.envs@[t].function_scope
        &&& env_find(post.envs@[t].bindings@, name) == Some(
            Binding { value: Value::Undefined, mutable, initialized: false, deletable },
        )
        &&& forall|n: Seq<char>|
            n != name ==> #[trigger] env_find(post.envs@[t].bindings@, n) == env_find(
                self.envs@[t].bindings@,
                n,
            )
        &&& post.current == self.current
        &&& post.state == self.state
        &&& post.objects == self.objects
        &&& post.captures == self.captures
        &&& post.fuel == self.fuel
    }

    /// Creates an uninitialized mutable binding; a name already present in
    /// the target environment is a redeclaration error.
    pub fn create_mutable_binding(
        &mut self,
        name: String,
        deletable: bool,
        scope: VariableScope,
    ) -> (r: Result<(), InterpreterError>)
        requires
            old(self).wf(),
        ensures
            final(self).wf(),
            ({
                let t = match scope {
                    VariableScope::Block => old(self).current as int,
                    VariableScope::Function => old(self).function_env_of(
                        old(self).current as int,
                    ),
                };
                match r {
                    Ok(_) => env_find(old(self).envs@[t].bindings@, name@) is None && old(
                        self,
                    ).created_binding(*final(self), t, name@, true, deletable),
                    Err(e) => e is Syntax && env_find(old(self).envs@[t].bindings@, name@)
                        is Some && *final(self) == *old(self),
                }
            }),
    {
        self.create_binding(name, deletable, scope, true)
    }

    /// Creates an uninitialized immutable binding; a name already present
    /// in the target environment is a redeclaration error.
    pub fn create_immutable_binding(
        &mut self,
        name: String,
        deletable: bool,
        scope: VariableScope,
    ) -> (r: Result<(), InterpreterError>)
        requires
            old(self).wf(),
        ensures
            final(self).wf(),
            ({
                let t = match scope {
                    VariableScope::Block => old(self).current as int,
                    VariableScope::Function => old(self).function_env_of(
                        old(self).current as int,
                    ),
                };
                match r {
                    Ok(_) => env_find(old(self).envs@[t].bindings@, name@) is None && old(
                        self,
                    ).created_binding(*final(self), t, name@, false, deletable),
                    Err(e) => e is Syntax && env_find(old(self).envs@[t].bindings@, name@)
                        is Some && *final(self) == *old(self),
                }
            }),
    {
        self.create_binding(name, deletable, scope, false)
    }

    fn create_binding(
        &mut self,
        name: String,
        deletable: bool,
        scope: VariableScope,
        mutable: bool,
    ) -> (r: Result<(), InterpreterError>)
        requires
            old(self).wf(),
        ensures
            final(self).wf(),
            ({
                let t = match scope {
                    VariableScope::Block => old(self).current as int,
                    VariableScope::Function => old(self).function_env_of(
                        old(self).current as int,
                    ),
                };
                match r {
                    Ok(_) => env_find(old(self).envs@[t].bindings@, name@) is None && old(
                        self,
                    ).created_binding(*final(self), t, name@, mutable, deletable),
                    Err(e) => e is Syntax && env_find(old(self).envs@[t].bindings@, name@)
                        is Some && *final(self) == *old(self),
                }
            }),
    {
        let t = self.declaration_env(scope);
        match find_in_env(&self.envs[t], &name) {
            Some(_) => Err(
                InterpreterError::Syntax("redeclaration of binding".to_owned()),
            ),
            None => {
                let ghost pre = self.envs@[t as int].bindings@;
                let binding = Binding {
                    value: Value::Undefined,
                    mutable,
                    initialized: false,
                    deletable,
                };
                let ghost entry = (name, binding);
                self.envs[t].bindings.push((name, binding));
                proof {
                    lemma_env_find_after_push(pre, entry);
                }
                Ok(())
            },
        }
    }
}

impl Context {
    /// What overwriting the binding for `name` in environment `e` with `b`
    /// does: its lookup yields `b`, every other lookup and every other
    /// environment is unchanged, and nothing else in the context moves.
    pub open spec fn updated_binding(self, post: Context, e: int, name: Seq<char>, b: Binding) -> bool {
        &&& post.envs@.len() == self.envs@.len()
        &&& forall|j: int|
            0 <= j < self.envs@.len() && j != e ==> post.envs@[j] == #[trigger] self.envs@[j]
        &&& post.envs@[e].parent == self.envs@[e].parent
        &&& post.envs@[e].function_scope == self.envs@[e].function_scope
        &&& env_find(post.envs@[e].bindings@, name) == Some(b)
        &&& forall|n: Seq<char>|
            n != name ==> #[trigger] env_find(post.envs@[e].bindings@, n) == env_find(
                self.envs@[e].bindings@,
                n,
            )
        &&& post.current == self.current
        &&& post.state == self.state
        &&& post.objects == self.objects
        &&& post.captures == self.captures
        &&& post.fuel == self.fuel
    }

    fn overwrite_binding(&mut self, e: usize, i: usize, value: Value, initialized: bool)
        requires
            old(self).wf(),
            (e as int) < old(self).envs@.len(),
            (i as int) < old(self).envs@[e as int].bindings@.len(),
            forall|j: int|
                0 <= j < i ==> old(self).envs@[e as int].bindings@[j].0@ != old(
                    self,
                ).envs@[e as int].bindings@[i as int].0@,
        ensures
            final(self).wf(),
            old(self).updated_binding(
                *final(self),
                e as int,
                old(self).envs@[e as int].bindings@[i as int].0@,
                Binding {
                    value,
                    mutable: old(self).envs@[e as int].bindings@[i as int].1.mutable,
                    initialized,
                    deletable: old(self).envs@[e as int].bindings@[i as int].1.deletable,
                },
            ),
    {
        let ghost pre = self.envs@[e as int].bindings@;
        let nm = self.envs[e].bindings[i].0.clone();
        let mutable = self.envs[e].bindings[i].1.mutable;
        let deletable = self.envs[e].bindings[i].1.deletable;
        let b = Binding { value, mutable, initialized, deletable };
        let ghost entry = (nm, b);
        self.envs[e].bindings[i] = (nm, b);
        proof {
            lemma_env_find_update(pre, i as int, entry);
        }
    }

    /// Assigns to an existing mutable binding, searching the chain from the
    /// current environment outwards. An immutable or absent binding is an
    /// error under `strict` and a silent no-op otherwise.
    pub fn set_mutable_binding(&mut self, name: &String, value: Value, strict: bool) -> (r: Result<
        (),
        InterpreterError,
    >)
        requires
            old(self).wf(),
        ensures
            final(self).wf(),
            match old(self).resolve_in(old(self).current as int, name@) {
                Some(rb) => if rb.1.mutable {
                    r is Ok && old(self).updated_binding(
                        *final(self),
                        rb.0,
                        name@,
                        Binding {
                            value,
                            mutable: true,
                            initialized: rb.1.initialized,
                            deletable: rb.1.deletable,
                        },
                    )
                } else {
                    (if strict {
                        r matches Err(e) && e is Type
                    } else {
                        r is Ok
                    }) && *final(self) == *old(self)
                },
                None => (if strict {
                    r matches Err(e) && e is Reference
                } else {
                    r is Ok
                }) && *final(self) == *old(self),
            },
    {
        match self.find_from(self.current, name) {
            Some((e, i)) => {
                if self.envs[e].bindings[i].1.mutable {
                    self.overwrite_binding(e, i, value, self.envs[e].bindings[i].1.initialized);
                    Ok(())
                } else if strict {
                    Err(InterpreterError::Type("assignment to constant binding".to_owned()))
                } else {
                    Ok(())
                }
            },
            None => {
                if strict {
                    Err(InterpreterError::Reference("assignment to undeclared binding".to_owned()))
                } else {
                    Ok(())
                }
            },
        }
    }

    /// Gives a declared binding its value and marks it initialized; the
    /// binding must have been created first, so an absent name is an error.
    pub fn initialize_binding(&mut self, name: &String, value: Value) -> (r: Result<
        (),
        InterpreterError,
    >)
        requires
            old(self).wf(),
        ensures
            final(self).wf(),
            match old(self).resolve_in(old(self).current as int, name@) {
                Some(rb) => r is Ok && old(self).updated_binding(
                    *final(self),
                    rb.0,
                    name@,
                    Binding {
                        value,
                        mutable: rb.1.mutable,
                        initialized: true,
                        deletable: rb.1.deletable,
                    },
                ),
                None => (r matches Err(e) && e is Reference) && *final(self) == *old(self),
            },
    {
        match self.find_from(self.current, name) {
            Some((e, i)) => {
                self.overwrite_binding(e, i, value, true);
                Ok(())
            },
            None => Err(
                InterpreterError::Reference("initialization of undeclared binding".to_owned()),
            ),
        }
    }

    /// Resolves a name to the value of its innermost binding; an absent or
    /// still uninitialized binding is a reference error.
    pub fn get_binding_value(&self, name: &String) -> (r: Result<Value, InterpreterError>)
        requires
            self.wf(),
        ensures
            match self.resolve_in(self.current as int, name@) {
                Some(rb) => if rb.1.initialized {
                    r matches Ok(v) && v@ == rb.1.value@
                } else {
                    r matches Err(e) && e is Reference
                },
                None => r matches Err(e) && e is Reference,
            },
    {
        match self.find_from(self.current, name) {
            Some((e, i)) => {
                if self.envs[e].bindings[i].1.initialized {
                    Ok(self.envs[e].bindings[i].1.value.duplicate())
                } else {
                    Err(InterpreterError::Reference("binding is not initialized".to_owned()))
                }
            },
            None => Err(InterpreterError::Reference("binding is not declared".to_owned())),
        }
    }

    /// Records a capture of `name` in the current scope, as a closure
    /// created here would, and returns its index.
    pub fn capture(&mut self, name: &String) -> (idx: usize)
        requires
            old(self).wf(),
        ensures
            final(self).wf(),
            idx == old(self).captures@.len(),
            final(self).captures@.len() == old(self).captures@.len() + 1,
            final(self).captures@.subrange(0, old(self).captures@.len() as int) == old(
                self,
            ).captures@,
            final(self).captures@.last().env == old(self).current,
            final(self).captures@.last().name@ == name@,
            final(self).envs == old(self).envs,
            final(self).current == old(self).current,
            final(self).state == old(self).state,
            final(self).objects == old(self).objects,
            final(self).fuel == old(self).fuel,
    {
        let idx = self.captures.len();
        self.captures.push(Capture { env: self.current, name: name.clone() });
        proof {
            assert(final(self).captures@.subrange(0, old(self).captures@.len() as int) =~= old(
                self,
            ).captures@);
        }
        idx
    }

    /// Reads a capture back: the value the captured scope currently holds
    /// for the captured name, or nothing if the name is absent there or
    /// still uninitialized.
    pub fn read_capture(&self, idx: usize) -> (r: Option<Value>)
        requires
            self.wf(),
            (idx as int) < self.captures@.len(),
        ensures
            ({
                let res = self.resolve_in(
                    self.captures@[idx as int].env as int,
                    self.captures@[idx as int].name@,
                );
                match r {
                    Some(v) => res matches Some(rb) && rb.1.initialized && v@ == rb.1.value@,
                    None => !(res matches Some(rb) && rb.1.initialized),
                }
            }),
    {
        let cap_env = self.captures[idx].env;
        match self.find_from(cap_env, &self.captures[idx].name) {
            Some((e, i)) => {
                if self.envs[e].bindings[i].1.initialized {
                    Some(self.envs[e].bindings[i].1.value.duplicate())
                } else {
                    None
                }
            },
            None => None,
        }
    }
}

/// Appending a binding: its own name now resolves to it unless an earlier
/// slot shadowed it; every other name is unchanged.
proof fn lemma_env_find_after_push(s: Seq<(String, Binding)>, x: (String, Binding))
    ensures
        env_find(s, x.0@) is None ==> env_find(s.push(x), x.0@) == Some(x.1),
        forall|n: Seq<char>|
            n != x.0@ ==> #[trigger] env_find(s.push(x), n) == env_find(s, n),
    decreases s.len(),
{
    if s.len() == 0 {
        assert(s.push(x)[0] == x);
        assert(s.push(x).drop_first() =~= s);
    } else {
        assert(s.push(x)[0] == s[0]);
        assert(s.push(x).drop_first() =~= s.drop_first().push(x));
        lemma_env_find_after_push(s.drop_first(), x);
        assert forall|n: Seq<char>| n != x.0@ implies #[trigger] env_find(s.push(x), n)
            == env_find(s, n) by {
            if s[0].0@ != n {
                assert(env_find(s.push(x), n) == env_find(s.push(x).drop_first(), n));
                assert(env_find(s, n) == env_find(s.drop_first(), n));
            }
        }
    }
}

} // verus!
