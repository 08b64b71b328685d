//! Syntax nodes and the statement executors: the `for...in` executor that
//! drives one full iteration protocol with a fresh scope per iteration, and
//! the unconditional `loop` executor with label-aware consumption of
//! control-flow signals.

use vstd::prelude::*;
use crate::context::{
    Binding, Capture, Context, InterpreterError, InterpreterState, VariableScope, env_find,
    extends, label_matches, lemma_created_extends, lemma_extends_trans, lemma_function_env_same,
    lemma_resolve_after_function_create, lemma_resolve_after_overwrite, lemma_resolve_env_le,
    lemma_resolve_none_function_env, lemma_resolve_same, lemma_updated_extends, matches_label,
    opt_str_view, run_frame,
};
use crate::iterable::get_iterator;
use crate::value::{AbstractValue, Value};

verus! {

/// One declared variable in a declaration list: its name and its optional
/// initializer expression.
#[derive(Debug, PartialEq)]
pub struct Declaration {
    pub name: String,
    pub init: Option<Box<Node>>,
}

/// A syntax-tree node of the statement language the executors walk.
#[derive(Debug, PartialEq)]
pub enum Node {
    /// A name to resolve in the scope chain.
    Identifier(String),
    /// A literal value.
    Const(Value),
    /// `var` declarations: function-scoped, mutable.
    VarDeclList(Vec<Declaration>),
    /// `let` declarations: block-scoped, mutable.
    LetDeclList(Vec<Declaration>),
    /// `const` declarations: block-scoped, immutable.
    ConstDeclList(Vec<Declaration>),
    /// An assignment to an existing binding.
    Assign(String, Box<Node>),
    /// A braced statement list with its own block scope.
    Block(Vec<Node>),
    /// Sets the break signal, optionally addressed to a label.
    Break(Option<String>),
    /// Sets the continue signal, optionally addressed to a label.
    Continue(Option<String>),
    /// Evaluates its expression and sets the return signal.
    Return(Box<Node>),
    /// The `for ... in ...` loop.
    ForLoop(ForLoop),
    /// The unconditional, optionally labelled `loop`.
    Loop(Loop),
    /// Models a closure created here that captures the named binding of
    /// the current scope; evaluates to the absent value.
    Capture(String),
}

/// The `for ... in ...` loop node: binding target, iterable expression and
/// body.
#[derive(Debug, PartialEq)]
pub struct ForLoop {
    pub variable: Box<Node>,
    pub iterable: Box<Node>,
    pub body: Box<Node>,
}

/// The unconditional `loop` node: its body and an optional label.
#[derive(Debug, PartialEq)]
pub struct Loop {
    pub expr: Box<Node>,
    pub label: Option<String>,
}

impl ForLoop {
    /// Builds a `for` loop node from its three sub-nodes.
    pub fn new(variable: Node, iterable: Node, body: Node) -> (r: ForLoop)
        ensures
            *r.variable == variable,
            *r.iterable == iterable,
            *r.body == body,
    {
        ForLoop { variable: Box::new(variable), iterable: Box::new(iterable), body: Box::new(body) }
    }

    /// The binding target of the loop head.
    pub fn variable(&self) -> (r: &Node)
        ensures
            *r == *self.variable,
    {
        &self.variable
    }

    /// The iterable expression of the loop head.
    pub fn iterable(&self) -> (r: &Node)
        ensures
            *r == *self.iterable,
    {
        &self.iterable
    }

    /// The loop body.
    pub fn body(&self) -> (r: &Node)
        ensures
            *r == *self.body,
    {
        &self.body
    }
}


/// Binds one pulled value into the loop's binding target, dispatching on
/// the target's shape: a bare identifier is assigned if a mutable binding
/// is visible anywhere on the chain and otherwise declared and initialized
/// function-scoped; a single-variable `var` list likewise; single-variable
/// `let` and `const` lists declare in the freshly opened per-iteration
/// scope; every other shape is a structural error.
pub fn bind_loop_variable(variable: &Node, value: Value, context: &mut Context) -> (r: Result<
    (),
    InterpreterError,
>)
    requires
        old(context).wf(),
        old(context).state is Executing,
    ensures
        run_frame(*old(context), *final(context)),
        final(context).state is Executing,
        final(context).captures == old(context).captures,
        !valid_for_head(*variable) ==> (r matches Err(e) && e is Syntax),
        r matches Err(e) ==> !(e is Exhausted),
        chain_head(*variable) matches Some((nm, del)) ==> match old(context).resolve_in(
            old(context).current as int,
            nm,
        ) {
            Some(rb0) => rb0.1.mutable ==> r is Ok && final(context).resolve_in(
                old(context).current as int,
                nm,
            ) == Some(
                (
                    rb0.0,
                    Binding {
                        value,
                        mutable: true,
                        initialized: rb0.1.initialized,
                        deletable: rb0.1.deletable,
                    },
                ),
            ),
            None => r is Ok && final(context).resolve_in(old(context).current as int, nm) == Some(
                (
                    old(context).function_env_of(old(context).current as int),
                    Binding { value, mutable: true, initialized: true, deletable: del },
                ),
            ),
        },
        block_head(*variable) matches Some((nm, m)) ==> (old(context).envs@[old(
            context,
        ).current as int].bindings@.len() == 0 ==> r is Ok && env_find(
            final(context).envs@[old(context).current as int].bindings@,
            nm,
        ) == Some(Binding { value, mutable: m, initialized: true, deletable: false }) && (forall|
            j: int,
        |
            0 <= j < final(context).envs@.len() && j != old(context).current
                ==> #[trigger] final(context).envs@[j] == old(context).envs@[j]) && (forall|
            n2: Seq<char>,
        |
            n2 != nm ==> #[trigger] env_find(
                final(context).envs@[old(context).current as int].bindings@,
                n2,
            ) is None)),
{
    match variable {
        Node::Identifier(name) => bind_named(name, value, VariableScope::Function, true, context),
        Node::VarDeclList(list) => {
            if list.len() == 1 {
                let var = &list[0];
                if var.init.is_some() {
                    return Err(
                        InterpreterError::Syntax(
                            "a declaration in the head of a for loop can't have an initializer".to_owned(),
                        ),
                    );
                }
                bind_named(&var.name, value, VariableScope::Function, false, context)
            } else {
                Err(
                    InterpreterError::Syntax(
                        "only one variable can be declared in the head of a for loop".to_owned(),
                    ),
                )
            }
        },
        Node::LetDeclList(list) => {
            if list.len() == 1 {
                let var = &list[0];
                if var.init.is_some() {
                    return Err(
                        InterpreterError::Syntax(
                            "a declaration in the head of a for loop can't have an initializer".to_owned(),
                        ),
                    );
                }
                declare_named(&var.name, value, true, context)
            } else {
                Err(
                    InterpreterError::Syntax(
                        "only one variable can be declared in the head of a for loop".to_owned(),
                    ),
                )
            }
        },
        Node::ConstDeclList(list) => {
            if list.len() == 1 {
                let var = &list[0];
                if var.init.is_some() {
                    return Err(
                        InterpreterError::Syntax(
                            "a declaration in the head of a for loop can't have an initializer".to_owned(),
                        ),
                    );
                }
                declare_named(&var.name, value, false, context)
            } else {
                Err(
                    InterpreterError::Syntax(
                        "only one variable can be declared in the head of a for loop".to_owned(),
                    ),
                )
            }
        },
        Node::Assign(_, _) => Err(
            InterpreterError::Syntax(
                "a declaration in the head of a for loop can't have an initializer".to_owned(),
            ),
        ),
        _ => Err(
            InterpreterError::Syntax("unknown left hand side in head of for loop".to_owned()),
        ),
    }
}

/// Assigns to the named binding if one is visible, otherwise declares and
/// initializes a function-scoped mutable binding for it.
fn bind_named(
    name: &String,
    value: Value,
    scope: VariableScope,
    deletable: bool,
    context: &mut Context,
) -> (r: Result<(), InterpreterError>)
    requires
        old(context).wf(),
        old(context).state is Executing,
    ensures
        run_frame(*old(context), *final(context)),
        final(context).state is Executing,
        final(context).captures == old(context).captures,
        r matches Err(e) ==> !(e is Exhausted),
        old(context).resolve_in(old(context).current as int, name@) matches Some(rb0) ==> (
        rb0.1.mutable ==> r is Ok && final(context).resolve_in(old(context).current as int, name@)
            == Some(
            (
                rb0.0,
                Binding {
                    value,
                    mutable: true,
                    initialized: rb0.1.initialized,
                    deletable: rb0.1.deletable,
                },
            ),
        )),
        old(context).resolve_in(old(context).current as int, name@) is None && scope is Function
            ==> r is Ok && final(context).resolve_in(old(context).current as int, name@) == Some(
            (
                old(context).function_env_of(old(context).current as int),
                Binding { value, mutable: true, initialized: true, deletable },
            ),
        ),
{
    if context.has_binding(name) {
        let ghost c0 = *context;
        let res = context.set_mutable_binding(name, value, true);
        proof {
            match c0.resolve_in(c0.current as int, name@) {
                Option::Some(rb) => {
                    if rb.1.mutable {
                        let nb = Binding {
                            value,
                            mutable: true,
                            initialized: rb.1.initialized,
                            deletable: rb.1.deletable,
                        };
                        lemma_updated_extends(c0, *context, rb.0, name@, nb);
                        assert forall|j: int|
                            0 <= j < c0.envs@.len() && j != rb.0 implies #[trigger] env_find(
                            context.envs@[j].bindings@,
                            name@,
                        ) == env_find(c0.envs@[j].bindings@, name@) by {
                            assert(context.envs@[j] == c0.envs@[j]);
                        }
                        lemma_resolve_after_overwrite(
                            c0,
                            *context,
                            c0.current as int,
                            name@,
                            rb.0,
                            nb,
                        );
                    }
                },
                Option::None => {},
            }
        }
        res
    } else {
        let ghost c0 = *context;
        let ghost t: int = match scope {
            VariableScope::Block => c0.current as int,
            VariableScope::Function => c0.function_env_of(c0.current as int),
        };
        proof {
            if scope is Function {
                lemma_resolve_none_function_env(c0, c0.current as int, name@);
            }
        }
        match context.create_mutable_binding(name.clone(), deletable, scope) {
            Ok(_) => {},
            Err(e) => {
                return Err(e);
            },
        }
        proof {
            lemma_created_extends(c0, *context, t, name@, true, deletable);
            if scope is Function {
                let ub = Binding {
                    value: Value::Undefined,
                    mutable: true,
                    initialized: false,
                    deletable,
                };
                assert forall|j: int|
                    0 <= j < c0.envs@.len() && j != t implies #[trigger] env_find(
                    context.envs@[j].bindings@,
                    name@,
                ) == env_find(c0.envs@[j].bindings@, name@) by {
                    assert(context.envs@[j] == c0.envs@[j]);
                }
                lemma_resolve_after_function_create(c0, *context, c0.current as int, name@, ub);
            }
        }
        let ghost c1 = *context;
        let res = context.initialize_binding(name, value);
        proof {
            match c1.resolve_in(c1.current as int, name@) {
                Option::Some(rb) => {
                    let nb = Binding {
                        value,
                        mutable: rb.1.mutable,
                        initialized: true,
                        deletable: rb.1.deletable,
                    };
                    lemma_updated_extends(c1, *context, rb.0, name@, nb);
                    assert forall|j: int|
                        0 <= j < c1.envs@.len() && j != rb.0 implies #[trigger] env_find(
                        context.envs@[j].bindings@,
                        name@,
                    ) == env_find(c1.envs@[j].bindings@, name@) by {
                        assert(context.envs@[j] == c1.envs@[j]);
                    }
                    lemma_resolve_after_overwrite(
                        c1,
                        *context,
                        c1.current as int,
                        name@,
                        rb.0,
                        nb,
                    );
                },
                Option::None => {},
            }
            lemma_extends_trans(c0, c1, *context);
        }
        res
    }
}

/// Declares and initializes a block-scoped binding, mutable or immutable,
/// in the current (per-iteration) scope.
fn declare_named(name: &String, value: Value, mutable: bool, context: &mut Context) -> (r: Result<
    (),
    InterpreterError,
>)
    requires
        old(context).wf(),
        old(context).state is Executing,
    ensures
        run_frame(*old(context), *final(context)),
        final(context).state is Executing,
        final(context).captures == old(context).captures,
        r matches Err(e) ==> !(e is Exhausted),
        old(context).envs@[old(context).current as int].bindings@.len() == 0 ==> r is Ok
            && env_find(final(context).envs@[old(context).current as int].bindings@, name@)
            == Some(Binding { value, mutable, initialized: true, deletable: false }) && (forall|
            j: int,
        |
            0 <= j < final(context).envs@.len() && j != old(context).current
                ==> #[trigger] final(context).envs@[j] == old(context).envs@[j]) && (forall|
            n2: Seq<char>,
        |
            n2 != name@ ==> #[trigger] env_find(
                final(context).envs@[old(context).current as int].bindings@,
                n2,
            ) is None),
{
    let ghost c0 = *context;
    let ghost t: int = c0.current as int;
    let cres = if mutable {
        context.create_mutable_binding(name.clone(), false, VariableScope::Block)
    } else {
        context.create_immutable_binding(name.clone(), false, VariableScope::Block)
    };
    match cres {
        Ok(_) => {},
        Err(e) => {
            return Err(e);
        },
    }
    proof {
        lemma_created_extends(c0, *context, t, name@, mutable, false);
    }
    let ghost c1 = *context;
    let res = context.initialize_binding(name, value);
    proof {
        match c1.resolve_in(c1.current as int, name@) {
            Option::Some(rb) => {
                lemma_updated_extends(
                    c1,
                    *context,
                    rb.0,
                    name@,
                    Binding {
                        value,
                        mutable: rb.1.mutable,
                        initialized: true,
                        deletable: rb.1.deletable,
                    },
                );
            },
            Option::None => {},
        }
        lemma_extends_trans(c0, c1, *context);
    }
    res
}

impl Loop {
    /// Builds an unlabelled `loop` node.
    pub fn new(body: Node) -> (r: Loop)
        ensures
            *r.expr == body,
            r.label is None,
    {
        Loop { expr: Box::new(body), label: Option::None }
    }

    /// The loop body.
    pub fn expr(&self) -> (r: &Node)
        ensures
            *r == *self.expr,
    {
        &self.expr
    }

    /// The label, if one is attached.
    pub fn label(&self) -> (r: Option<&String>)
        ensures
            r is Some <==> self.label is Some,
            r matches Some(s) ==> self.label matches Some(t) && s == t,
    {
        self.label.as_ref()
    }

    /// Attaches a label.
    pub fn set_label(&mut self, label: String)
        ensures
            final(self).label == Some(label),
            final(self).expr == old(self).expr,
    {
        self.label = Option::Some(label);
    }
}

/// The binding-target shapes a `for` head accepts: a bare identifier, or a
/// declaration list of exactly one variable without an initializer.
pub open spec fn valid_for_head(n: Node) -> bool {
    match n {
        Node::Identifier(_) => true,
        Node::VarDeclList(l) => l@.len() == 1 && l@[0].init is None,
        Node::LetDeclList(l) => l@.len() == 1 && l@[0].init is None,
        Node::ConstDeclList(l) => l@.len() == 1 && l@[0].init is None,
        _ => false,
    }
}

/// The value an expression node evaluates to without side effects: a
/// literal's value, or the value of the initialized binding a bare name
/// resolves to.
pub open spec fn evaluated_value(n: Node, pre: Context) -> Option<AbstractValue> {
    match n {
        Node::Const(v) => Some(v@),
        Node::Identifier(nm) => match pre.resolve_in(pre.current as int, nm@) {
            Some(rb) => if rb.1.initialized {
                Some(rb.1.value@)
            } else {
                None
            },
            None => None,
        },
        _ => None,
    }
}

/// The object a `for` head iterates: its iterable expression — a literal
/// or a name — evaluates to an object reference that is live in the
/// context.
pub open spec fn iterated_object(n: Node, pre: Context) -> Option<int> {
    match evaluated_value(n, pre) {
        Some(av) => match av {
            AbstractValue::Object(id) => if 0 <= id < pre.objects@.len() {
                Some(id)
            } else {
                None
            },
            _ => None,
        },
        None => None,
    }
}

/// The value of a literal node, if the node is one.
pub open spec fn const_value(n: Node) -> Option<AbstractValue> {
    match n {
        Node::Const(c) => Some(c@),
        _ => None,
    }
}

/// The value returned by a `return` statement over a literal, if the node
/// is one.
pub open spec fn return_const_value(n: Node) -> Option<AbstractValue> {
    match n {
        Node::Return(b) => const_value(*b),
        _ => None,
    }
}

/// The label a bare break statement addresses, if the node is one.
pub open spec fn break_label_of(n: Node) -> Option<Option<Seq<char>>> {
    match n {
        Node::Break(l) => Some(opt_str_view(l)),
        _ => None,
    }
}

/// The declared name of a binding target that is a single-variable `let`
/// list without initializer, if the node is one.
pub open spec fn let_head_name(n: Node) -> Option<Seq<char>> {
    match n {
        Node::LetDeclList(ds) => if ds@.len() == 1 && ds@[0].init is None {
            Some(ds@[0].name@)
        } else {
            None
        },
        _ => None,
    }
}

/// The captured name of a closure-like capture statement, if the node is
/// one.
pub open spec fn capture_name_of(n: Node) -> Option<Seq<char>> {
    match n {
        Node::Capture(c) => Some(c@),
        _ => None,
    }
}

/// The declared name of a binding target that is a single-variable `const`
/// list without initializer, if the node is one.
pub open spec fn const_head_name(n: Node) -> Option<Seq<char>> {
    match n {
        Node::ConstDeclList(ds) => if ds@.len() == 1 && ds@[0].init is None {
            Some(ds@[0].name@)
        } else {
            None
        },
        _ => None,
    }
}

/// The declared name of a binding target that is a single-variable `var`
/// list without initializer, if the node is one.
pub open spec fn var_head_name(n: Node) -> Option<Seq<char>> {
    match n {
        Node::VarDeclList(ds) => if ds@.len() == 1 && ds@[0].init is None {
            Some(ds@[0].name@)
        } else {
            None
        },
        _ => None,
    }
}

/// A block-declaring loop head — a single-variable `let` or `const` list —
/// as its declared name and its mutability.
pub open spec fn block_head(n: Node) -> Option<(Seq<char>, bool)> {
    match let_head_name(n) {
        Some(nm) => Some((nm, true)),
        None => match const_head_name(n) {
            Some(nm) => Some((nm, false)),
            None => None,
        },
    }
}

/// A chain-binding loop head — a bare identifier or a single-variable
/// `var` list — as its name and the deletability a freshly created binding
/// for it gets.
pub open spec fn chain_head(n: Node) -> Option<(Seq<char>, bool)> {
    match n {
        Node::Identifier(nm) => Some((nm@, true)),
        _ => match var_head_name(n) {
            Some(nm) => Some((nm, false)),
            None => None,
        },
    }
}

/// A chain-binding head can be bound in this context: the name resolves to
/// a mutable binding, or to none at all (and will be freshly declared).
pub open spec fn head_bindable(pre: Context, nm: Seq<char>) -> bool {
    match pre.resolve_in(pre.current as int, nm) {
        Some(rb0) => rb0.1.mutable,
        None => true,
    }
}

/// What a full run over a non-empty iterable leaves behind for a
/// chain-binding head named `nm`: the name resolves, from the scope the
/// loop ran in, to a mutable binding holding `v` — assigned in place where
/// the name was already bound, freshly created in the nearest
/// function-scope environment (initialized, with deletability `del`) where
/// it was not.
pub open spec fn loop_var_binding_after(
    pre: Context,
    post: Context,
    nm: Seq<char>,
    del: bool,
    v: AbstractValue,
) -> bool {
    match post.resolve_in(pre.current as int, nm) {
        Some(rb) => {
            &&& rb.1.mutable
            &&& rb.1.value@ == v
            &&& match pre.resolve_in(pre.current as int, nm) {
                Some(rb0) => rb.0 == rb0.0 && rb.1.initialized == rb0.1.initialized
                    && rb.1.deletable == rb0.1.deletable,
                None => rb.0 == pre.function_env_of(pre.current as int) && rb.1.initialized
                    && rb.1.deletable == del,
            }
        },
        None => false,
    }
}

/// Bodies after which the loop provably pulls the next element: a literal,
/// a capture, and a continue (which every `for` loop consumes).
pub open spec fn body_runs_all(n: Node) -> bool {
    ||| const_value(n) is Some
    ||| continue_label_of(n) is Some
    ||| capture_name_of(n) is Some
}

/// The value a declaration initializes its binding to, where its
/// initializer, if any, is a literal.
pub open spec fn decl_const_value(d: Declaration) -> Option<AbstractValue> {
    match d.init {
        Option::None => Some(AbstractValue::Undefined),
        Option::Some(b) => const_value(*b),
    }
}

/// A declaration-list statement of exactly one variable with a literal or
/// absent initializer: its name, whether it declares block-scoped, its
/// mutability, and the value it initializes the binding to.
pub open spec fn single_decl(n: Node) -> Option<(Seq<char>, bool, bool, AbstractValue)> {
    match n {
        Node::VarDeclList(ds) => if ds@.len() == 1 {
            match decl_const_value(ds@[0]) {
                Some(cv) => Some((ds@[0].name@, false, true, cv)),
                None => None,
            }
        } else {
            None
        },
        Node::LetDeclList(ds) => if ds@.len() == 1 {
            match decl_const_value(ds@[0]) {
                Some(cv) => Some((ds@[0].name@, true, true, cv)),
                None => None,
            }
        } else {
            None
        },
        Node::ConstDeclList(ds) => if ds@.len() == 1 {
            match decl_const_value(ds@[0]) {
                Some(cv) => Some((ds@[0].name@, true, false, cv)),
                None => None,
            }
        } else {
            None
        },
        _ => None,
    }
}

/// The name a `return` statement over a bare identifier returns the value
/// of, if the node is one.
pub open spec fn return_name_of(n: Node) -> Option<Seq<char>> {
    match n {
        Node::Return(b) => match *b {
            Node::Identifier(x) => Some(x@),
            _ => None,
        },
        _ => None,
    }
}

/// The label a bare continue statement addresses, if the node is one.
pub open spec fn continue_label_of(n: Node) -> Option<Option<Seq<char>>> {
    match n {
        Node::Continue(l) => Some(opt_str_view(l)),
        _ => None,
    }
}

/// The scenario of a block-declaring loop head (`let nm` or `const nm`)
/// whose body is a capture of `nm`: the shape under which each iteration's
/// closure captures the loop variable itself.
pub open spec fn captures_own_binding(fl: ForLoop) -> bool {
    match block_head(*fl.variable) {
        Some((nm, _)) => capture_name_of(*fl.body) == Some(nm),
        None => false,
    }
}

/// Reading a capture back through the scope chain finds an initialized
/// binding holding the expected value.
pub open spec fn capture_reads_back(post: Context, cap: Capture, expected: AbstractValue) -> bool {
    match post.resolve_in(cap.env as int, cap.name@) {
        Some(rb) => rb.1.initialized && rb.1.value@ == expected,
        None => false,
    }
}

/// The capture recorded in the fresh scope of an iteration still holds the
/// element pulled on that iteration, directly in its own environment.
spec fn capture_binding_holds(cur: Context, cap: Capture, nm: Seq<char>, expected: AbstractValue) -> bool {
    &&& cap.name@ == nm
    &&& (cap.env as int) < cur.envs@.len()
    &&& match env_find(cur.envs@[cap.env as int].bindings@, nm) {
        Some(b) => b.initialized && b.value@ == expected,
        None => false,
    }
}

/// After `upto` iterations over object `id` under the capture scenario:
/// one new capture per iteration, each still reading as its own element.
spec fn fresh_captures_so_far(pre: Context, cur: Context, id: int, nm: Seq<char>, upto: int) -> bool {
    &&& cur.captures@.len() == pre.captures@.len() + upto
    &&& forall|k: int|
        0 <= k < upto ==> capture_binding_holds(
            cur,
            #[trigger] cur.captures@[pre.captures@.len() + k],
            nm,
            pre.objects@[id]@[k]@,
        )
}

/// After a full run over object `id` under the capture scenario: one
/// capture per element, each reading back as the element pulled on its
/// iteration — the scenario of per-iteration scope freshness.
pub open spec fn fresh_captures_of_elements(pre: Context, post: Context, id: int, nm: Seq<char>) -> bool {
    &&& post.captures@.len() == pre.captures@.len() + pre.objects@[id]@.len()
    &&& forall|k: int|
        0 <= k < pre.objects@[id]@.len() ==> ((#[trigger] post.captures@[pre.captures@.len()
            + k]).name@ == nm && capture_reads_back(
            post,
            post.captures@[pre.captures@.len() + k],
            pre.objects@[id]@[k]@,
        ))
}

/// Declares and initializes each variable of a declaration list, its
/// initializer's value or the absent value.
#[verifier::loop_isolation(false)]
fn run_declarations(
    list: &Vec<Declaration>,
    scope: VariableScope,
    mutable: bool,
    context: &mut Context,
) -> (r: Result<Value, InterpreterError>)
    requires
        old(context).wf(),
        old(context).state is Executing,
    ensures
        run_frame(*old(context), *final(context)),
        r is Err ==> final(context).state is Executing,
        r matches Err(e) && e is Exhausted ==> final(context).fuel == 0,
        list@.len() == 1 && decl_const_value(list@[0]) is Some && old(context).resolve_in(
            old(context).current as int,
            list@[0].name@,
        ) is None ==> r is Ok && final(context).state is Executing && (match final(context)
            .resolve_in(old(context).current as int, list@[0].name@) {
            Some(rb) => rb.0 == (match scope {
                VariableScope::Block => old(context).current as int,
                VariableScope::Function => old(context).function_env_of(
                    old(context).current as int,
                ),
            }) && rb.1.value@ == decl_const_value(list@[0]).unwrap() && rb.1.mutable == mutable
                && rb.1.initialized && !rb.1.deletable,
            None => false,
        }),
    decreases *list,
{
    let ghost single = list@.len() == 1 && decl_const_value(list@[0]) is Some && old(
        context,
    ).resolve_in(old(context).current as int, list@[0].name@) is None;
    let mut i: usize = 0;
    while i < list.len()
        invariant
            context.wf(),
            extends(*context, *old(context)),
            context.current == old(context).current,
            context.state is Executing,
            i <= list@.len(),
            single ==> (i == 0 ==> *context == *old(context)),
            single ==> (i == 1 ==> (match context.resolve_in(
                old(context).current as int,
                list@[0].name@,
            ) {
                Some(rb) => rb.0 == (match scope {
                    VariableScope::Block => old(context).current as int,
                    VariableScope::Function => old(context).function_env_of(
                        old(context).current as int,
                    ),
                }) && rb.1.value@ == decl_const_value(list@[0]).unwrap() && rb.1.mutable
                    == mutable && rb.1.initialized && !rb.1.deletable,
                None => false,
            })),
        decreases list@.len() - i,
    {
        let decl = &list[i];
        proof {
            assert(decreases_to!(*list => list@[i as int]));
        }
        let value = match &decl.init {
            Option::Some(n) => match n.run(context) {
                Ok(v) => v,
                Err(e) => {
                    return Err(e);
                },
            },
            Option::None => Value::Undefined,
        };
        match &context.state {
            InterpreterState::Executing => {},
            _ => {
                // the initializer completed abruptly: stop declaring and
                // let the signal propagate
                return Ok(Value::Undefined);
            },
        }
        let ghost c1 = *context;
        let ghost t1: int = match scope {
            VariableScope::Block => c1.current as int,
            VariableScope::Function => c1.function_env_of(c1.current as int),
        };
        proof {
            if single && i == 0 && scope is Function {
                lemma_resolve_none_function_env(c1, c1.current as int, decl.name@);
            }
        }
        let cres = if mutable {
            context.create_mutable_binding(decl.name.clone(), false, scope)
        } else {
            context.create_immutable_binding(decl.name.clone(), false, scope)
        };
        match cres {
            Ok(_) => {},
            Err(e) => {
                return Err(e);
            },
        }
        proof {
            lemma_created_extends(c1, *context, t1, decl.name@, mutable, false);
            lemma_extends_trans(*old(context), c1, *context);
            if single && i == 0 {
                let ub = Binding {
                    value: Value::Undefined,
                    mutable,
                    initialized: false,
                    deletable: false,
                };
                if scope is Function {
                    assert forall|j: int|
                        0 <= j < c1.envs@.len() && j != t1 implies #[trigger] env_find(
                        context.envs@[j].bindings@,
                        decl.name@,
                    ) == env_find(c1.envs@[j].bindings@, decl.name@) by {
                        assert(context.envs@[j] == c1.envs@[j]);
                    }
                    lemma_resolve_after_function_create(
                        c1,
                        *context,
                        c1.current as int,
                        decl.name@,
                        ub,
                    );
                } else {
                    assert(context.resolve_in(c1.current as int, decl.name@) == Some((t1, ub)));
                }
            }
        }
        let ghost c2 = *context;
        match context.initialize_binding(&decl.name, value) {
            Ok(_) => {},
            Err(e) => {
                return Err(e);
            },
        }
        proof {
            match c2.resolve_in(c2.current as int, decl.name@) {
                Option::Some(rb) => {
                    let nb = Binding {
                        value,
                        mutable: rb.1.mutable,
                        initialized: true,
                        deletable: rb.1.deletable,
                    };
                    lemma_updated_extends(c2, *context, rb.0, decl.name@, nb);
                    if single && i == 0 {
                        assert forall|j: int|
                            0 <= j < c2.envs@.len() && j != rb.0 implies #[trigger] env_find(
                            context.envs@[j].bindings@,
                            decl.name@,
                        ) == env_find(c2.envs@[j].bindings@, decl.name@) by {
                            assert(context.envs@[j] == c2.envs@[j]);
                        }
                        lemma_resolve_after_overwrite(
                            c2,
                            *context,
                            c2.current as int,
                            decl.name@,
                            rb.0,
                            nb,
                        );
                    }
                },
                Option::None => {},
            }
            lemma_extends_trans(*old(context), c2, *context);
        }
        i = i + 1;
    }
    Ok(Value::Undefined)
}

impl Node {
    /// Executes one node of the statement language against the context.
    #[verifier::loop_isolation(false)]
    pub fn run(&self, context: &mut Context) -> (r: Result<Value, InterpreterError>)
        requires
            old(context).wf(),
            old(context).state is Executing,
        ensures
            run_frame(*old(context), *final(context)),
            r is Err ==> final(context).state is Executing,
            *self matches Node::Const(v) ==> r matches Ok(res) && res@ == v@ && *final(context)
                == *old(context),
            *self matches Node::Break(l) ==> (r matches Ok(v) && v is Undefined) && final(context).state
                == InterpreterState::Break(l) && final(context).envs == old(context).envs
                && final(context).current == old(context).current && final(context).objects
                == old(context).objects && final(context).captures == old(context).captures
                && final(context).fuel == old(context).fuel,
            *self matches Node::Continue(l) ==> (r matches Ok(v) && v is Undefined) && final(context).state
                == InterpreterState::Continue(l) && final(context).envs == old(context).envs
                && final(context).current == old(context).current && final(context).objects
                == old(context).objects && final(context).captures == old(context).captures
                && final(context).fuel == old(context).fuel,
            *self matches Node::Return(_) ==> (r is Ok ==> final(context).state is Return),
            return_name_of(*self) matches Some(x) ==> match old(context).resolve_in(
                old(context).current as int,
                x,
            ) {
                Some(rb) => if rb.1.initialized {
                    (r matches Ok(v) && v@ == rb.1.value@) && final(context).state is Return
                        && final(context).envs == old(context).envs && final(context).current
                        == old(context).current && final(context).objects == old(context).objects
                        && final(context).captures == old(context).captures && final(context).fuel
                        == old(context).fuel
                } else {
                    (r matches Err(e) && e is Reference) && *final(context) == *old(context)
                },
                None => (r matches Err(e) && e is Reference) && *final(context) == *old(context),
            },
            r matches Err(e) && e is Exhausted ==> final(context).fuel == 0,
            single_decl(*self) matches Some((nm, blk, mu, vexp)) ==> (old(context).resolve_in(
                old(context).current as int,
                nm,
            ) is None ==> r is Ok && final(context).state is Executing && (match final(context)
                .resolve_in(old(context).current as int, nm) {
                Some(rb) => rb.0 == (if blk {
                    old(context).current as int
                } else {
                    old(context).function_env_of(old(context).current as int)
                }) && rb.1.value@ == vexp && rb.1.mutable == mu && rb.1.initialized
                    && !rb.1.deletable,
                None => false,
            })),
            return_const_value(*self) matches Some(cv) ==> (r matches Ok(v) && v@ == cv)
                && final(context).state is Return && final(context).envs == old(context).envs
                && final(context).current == old(context).current && final(context).objects
                == old(context).objects && final(context).captures == old(context).captures
                && final(context).fuel == old(context).fuel,
            *self matches Node::Assign(n, b) ==> (const_value(*b) matches Some(cv) ==> match old(
                context,
            ).resolve_in(old(context).current as int, n@) {
                Some(rb) => if rb.1.mutable {
                    (r matches Ok(v) && v@ == cv) && final(context).state is Executing && (
                    env_find(final(context).envs@[rb.0].bindings@, n@) matches Some(b2)
                        && b2.value@ == cv && b2.mutable && b2.initialized == rb.1.initialized)
                } else {
                    (r matches Err(e) && e is Type) && *final(context) == *old(context)
                },
                None => (r matches Err(e) && e is Reference) && *final(context) == *old(context),
            }),
            *self matches Node::Identifier(n) ==> match old(context).resolve_in(
                old(context).current as int,
                n@,
            ) {
                Some(rb) => if rb.1.initialized {
                    (r matches Ok(v) && v@ == rb.1.value@) && *final(context) == *old(context)
                } else {
                    (r matches Err(e) && e is Reference) && *final(context) == *old(context)
                },
                None => (r matches Err(e) && e is Reference) && *final(context) == *old(context),
            },
            *self matches Node::Capture(n) ==> (r matches Ok(v) && v is Undefined) && final(context).captures@.len()
                == old(context).captures@.len() + 1 && final(context).captures@.last().env == old(
                context,
            ).current && final(context).captures@.last().name@ == n@ && final(context).state == old(
                context,
            ).state && final(context).captures@.subrange(
                0,
                old(context).captures@.len() as int,
            ) == old(context).captures@ && final(context).envs == old(context).envs
                && final(context).current == old(context).current && final(context).objects
                == old(context).objects && final(context).fuel == old(context).fuel,
        decreases *self,
    {
        match self {
            Node::Identifier(name) => context.get_binding_value(name),
            Node::Const(v) => Ok(v.duplicate()),
            Node::VarDeclList(list) => run_declarations(
                list,
                VariableScope::Function,
                true,
                context,
            ),
            Node::LetDeclList(list) => run_declarations(list, VariableScope::Block, true, context),
            Node::ConstDeclList(list) => run_declarations(
                list,
                VariableScope::Block,
                false,
                context,
            ),
            Node::Assign(name, rhs) => {
                let v = match rhs.run(context) {
                    Ok(v) => v,
                    Err(e) => {
                        return Err(e);
                    },
                };
                match &context.state {
                    InterpreterState::Executing => {},
                    _ => {
                        // the right-hand side completed abruptly: skip the
                        // assignment and let the signal propagate
                        return Ok(v);
                    },
                }
                let stored = v.duplicate();
                let ghost c1 = *context;
                let res = context.set_mutable_binding(name, stored, true);
                proof {
                    match c1.resolve_in(c1.current as int, name@) {
                        Option::Some(rb) => {
                            if rb.1.mutable {
                                lemma_updated_extends(
                                    c1,
                                    *context,
                                    rb.0,
                                    name@,
                                    Binding {
                                        value: stored,
                                        mutable: true,
                                        initialized: rb.1.initialized,
                                        deletable: rb.1.deletable,
                                    },
                                );
                            }
                        },
                        Option::None => {},
                    }
                    lemma_extends_trans(*old(context), c1, *context);
                }
                match res {
                    Ok(_) => Ok(v),
                    Err(e) => Err(e),
                }
            },
            Node::Block(stmts) => {
                let ghost entry = *context;
                context.push(false);
                proof {
                    assert forall|k: int|
                        0 <= k < entry.envs@.len() implies (#[trigger] context.envs@[k]).parent
                        == entry.envs@[k].parent && context.envs@[k].function_scope
                        == entry.envs@[k].function_scope by {
                        assert(context.envs@.subrange(0, entry.envs@.len() as int)[k]
                            == entry.envs@[k]);
                    }
                    assert(extends(*context, entry));
                }
                let ghost opened = *context;
                let mut result = Value::Undefined;
                let mut running = true;
                let mut i: usize = 0;
                while running && i < stmts.len()
                    invariant
                        context.wf(),
                        extends(*context, opened),
                        context.current == opened.current,
                        running ==> context.state is Executing,
                        i <= stmts@.len(),
                    decreases stmts@.len() - i,
                {
                    proof {
                        assert(decreases_to!(*self => stmts@[i as int]));
                    }
                    match stmts[i].run(context) {
                        Ok(v) => {
                            result = v;
                        },
                        Err(e) => {
                            context.pop();
                            return Err(e);
                        },
                    }
                    match &context.state {
                        InterpreterState::Executing => {},
                        _ => {
                            running = false;
                        },
                    }
                    i = i + 1;
                }
                proof {
                    assert(context.envs@[opened.current as int].parent == Some(entry.current));
                }
                context.pop();
                proof {
                    lemma_extends_trans(entry, opened, *context);
                }
                Ok(result)
            },
            Node::Break(label) => {
                let l = match label {
                    Option::Some(s) => Option::Some(s.clone()),
                    Option::None => Option::None,
                };
                context.state = InterpreterState::Break(l);
                Ok(Value::Undefined)
            },
            Node::Continue(label) => {
                let l = match label {
                    Option::Some(s) => Option::Some(s.clone()),
                    Option::None => Option::None,
                };
                context.state = InterpreterState::Continue(l);
                Ok(Value::Undefined)
            },
            Node::Return(e) => {
                let v = match e.run(context) {
                    Ok(v) => v,
                    Err(er) => {
                        return Err(er);
                    },
                };
                context.state = InterpreterState::Return;
                Ok(v)
            },
            Node::ForLoop(fl) => fl.run(context),
            Node::Loop(l) => l.run(context),
            Node::Capture(name) => {
                context.capture(name);
                Ok(Value::Undefined)
            },
        }
    }
}


impl Loop {
    /// Runs the body over and over, inspecting the control-flow signal
    /// after each pass: a break or continue addressed to this loop (by
    /// carrying no label or exactly this loop's label) is consumed — a
    /// break stops the loop, a continue starts the next pass; one
    /// addressed elsewhere stops the loop and propagates unchanged; a
    /// return stops the loop at once and forwards the body's value.
    #[verifier::loop_isolation(false)]
    pub fn run(&self, context: &mut Context) -> (r: Result<Value, InterpreterError>)
        requires
            old(context).wf(),
            old(context).state is Executing,
        ensures
            run_frame(*old(context), *final(context)),
            r is Err ==> final(context).state is Executing,
            r matches Err(e) && e is Exhausted ==> final(context).fuel == 0,
            r is Ok ==> match final(context).state {
                InterpreterState::Executing => true,
                InterpreterState::Return => true,
                InterpreterState::Break(l) => !label_matches(
                    opt_str_view(self.label),
                    opt_str_view(l),
                ),
                InterpreterState::Continue(l) => !label_matches(
                    opt_str_view(self.label),
                    opt_str_view(l),
                ),
            },
            break_label_of(*self.expr) matches Some(bl) ==> (old(context).fuel > 0 ==> (r
                matches Ok(v) && v is Undefined) && (if label_matches(
                opt_str_view(self.label),
                bl,
            ) {
                final(context).state is Executing
            } else {
                final(context).state matches InterpreterState::Break(l2) && opt_str_view(l2) == bl
            })),
            continue_label_of(*self.expr) matches Some(cl) ==> (old(context).fuel > 0 ==> (
            if label_matches(opt_str_view(self.label), cl) {
                r matches Err(e) && e is Exhausted
            } else {
                (r matches Ok(v) && v is Undefined) && (final(context).state
                    matches InterpreterState::Continue(l2) && opt_str_view(l2) == cl)
            })),
            return_const_value(*self.expr) matches Some(cv) ==> (old(context).fuel > 0 ==> (r
                matches Ok(v) && v@ == cv) && final(context).state is Return && final(context).fuel
                == old(context).fuel - 1),
            return_name_of(*self.expr) matches Some(x) ==> (old(context).fuel > 0 ==> (old(
                context,
            ).resolve_in(old(context).current as int, x) matches Some(rb) ==> (rb.1.initialized
                ==> (r matches Ok(v) && v@ == rb.1.value@) && final(context).state is Return
                && final(context).fuel == old(context).fuel - 1))),
            *self.expr matches Node::Identifier(x) ==> (old(context).fuel > 0 && old(
                context,
            ).resolve_in(old(context).current as int, x@) is None ==> (r matches Err(e) && e
                is Reference)),
        decreases *self,
    {
        let mut result = Value::Undefined;
        let mut looping = true;
        while looping
            invariant
                context.wf(),
                extends(*context, *old(context)),
                context.current == old(context).current,
                looping ==> context.state is Executing,
                break_label_of(*self.expr) matches Some(bl) ==> ((looping ==> context.fuel == old(
                    context,
                ).fuel) && (!looping ==> result is Undefined && (if label_matches(
                    opt_str_view(self.label),
                    bl,
                ) {
                    context.state is Executing
                } else {
                    context.state matches InterpreterState::Break(l2) && opt_str_view(l2) == bl
                }))),
                continue_label_of(*self.expr) matches Some(cl) ==> (label_matches(
                    opt_str_view(self.label),
                    cl,
                ) ==> looping),
                continue_label_of(*self.expr) matches Some(cl) ==> (!label_matches(
                    opt_str_view(self.label),
                    cl,
                ) ==> ((looping ==> context.fuel == old(context).fuel) && (!looping ==> result
                    is Undefined && (context.state matches InterpreterState::Continue(l2)
                    && opt_str_view(l2) == cl)))),
                return_const_value(*self.expr) matches Some(cv) ==> looping && context.fuel == old(
                    context,
                ).fuel,
                return_name_of(*self.expr) is Some ==> looping && context.envs == old(
                    context,
                ).envs && context.current == old(context).current && context.fuel == old(
                    context,
                ).fuel,
                *self.expr matches Node::Identifier(x) ==> looping && context.envs == old(
                    context,
                ).envs && context.current == old(context).current && (old(context).resolve_in(
                    old(context).current as int,
                    x@,
                ) is None ==> context.fuel == old(context).fuel),
                !looping ==> match context.state {
                    InterpreterState::Executing => true,
                    InterpreterState::Return => false,
                    InterpreterState::Break(l) => !label_matches(
                        opt_str_view(self.label),
                        opt_str_view(l),
                    ),
                    InterpreterState::Continue(l) => !label_matches(
                        opt_str_view(self.label),
                        opt_str_view(l),
                    ),
                },
            decreases context.fuel,
        {
            if context.fuel == 0 {
                return Err(InterpreterError::Exhausted);
            }
            context.fuel = context.fuel - 1;
            proof {
                // the body resolves names against the same unchanged scope
                // chain the loop was entered with
                if return_name_of(*self.expr) is Some {
                    lemma_resolve_same(
                        *old(context),
                        *context,
                        old(context).current as int,
                        return_name_of(*self.expr).unwrap(),
                    );
                }
                match &*self.expr {
                    Node::Identifier(x) => {
                        lemma_resolve_same(
                            *old(context),
                            *context,
                            old(context).current as int,
                            x@,
                        );
                    },
                    _ => {},
                }
            }
            result = match self.expr().run(context) {
                Ok(v) => v,
                Err(e) => {
                    return Err(e);
                },
            };
            match &context.state {
                InterpreterState::Break(l) => {
                    if matches_label(self.label.as_ref(), l.as_ref()) {
                        context.state = InterpreterState::Executing;
                    }
                    looping = false;
                },
                InterpreterState::Continue(l) => {
                    if matches_label(self.label.as_ref(), l.as_ref()) {
                        context.state = InterpreterState::Executing;
                    } else {
                        looping = false;
                    }
                },
                InterpreterState::Return => {
                    return Ok(result);
                },
                InterpreterState::Executing => {},
            }
        }
        Ok(result)
    }
}

impl ForLoop {
    /// Drives one full iteration protocol: evaluates the iterable once,
    /// then per iteration opens a fresh block scope, pulls the next value,
    /// binds it according to the shape of the binding target, runs the
    /// body, and consumes or forwards the resulting control-flow signal.
    /// Every scope this executor opens is closed again on every exit path,
    /// including errors.
    #[verifier::loop_isolation(false)]
    pub fn run(&self, context: &mut Context) -> (r: Result<Value, InterpreterError>)
        requires
            old(context).wf(),
            old(context).state is Executing,
        ensures
            run_frame(*old(context), *final(context)),
            r is Err ==> final(context).state is Executing,
            r matches Err(e) && e is Exhausted ==> final(context).fuel == 0,
            r is Ok ==> (final(context).state is Executing || final(context).state is Return),
            iterated_object(*self.iterable, *old(context)) matches Some(id) && old(context).objects@[id]@.len() == 0 ==> (r matches Ok(v) && v@ is Undefined) && final(context).state is Executing && final(context).captures == old(context).captures,
            iterated_object(*self.iterable, *old(context)) matches Some(id) && old(context).objects@[id]@.len() > 0 && !valid_for_head(*self.variable) ==> (r matches Err(e) && e is Syntax) && final(context).captures == old(context).captures,
            evaluated_value(*self.iterable, *old(context)) is Some && iterated_object(
                *self.iterable,
                *old(context),
            ) is None ==> (r matches Err(e) && e is Type) && final(context).captures == old(
                context,
            ).captures,
            *self.iterable matches Node::Identifier(_) && evaluated_value(
                *self.iterable,
                *old(context),
            ) is None ==> (r matches Err(e) && e is Reference),
            iterated_object(*self.iterable, *old(context)) matches Some(id) ==> (old(
                context,
            ).objects@[id]@.len() > 0 && block_head(*self.variable) is Some && break_label_of(
                *self.body,
            ) is Some ==> (r matches Ok(v) && v is Undefined) && final(context).state
                is Executing),
            iterated_object(*self.iterable, *old(context)) matches Some(id) ==> (block_head(
                *self.variable,
            ) is Some && continue_label_of(*self.body) is Some ==> (r matches Ok(v) && v
                is Undefined) && final(context).state is Executing),
            iterated_object(*self.iterable, *old(context)) matches Some(id) ==> (old(
                context,
            ).objects@[id]@.len() > 0 && block_head(*self.variable) is Some ==> (
            return_const_value(*self.body) matches Some(cv) ==> (r matches Ok(v) && v@ == cv)
                && final(context).state is Return)),
            iterated_object(*self.iterable, *old(context)) matches Some(id) ==> (old(
                context,
            ).objects@[id]@.len() > 0 ==> (block_head(*self.variable) matches Some((nm, m)) ==> (
            return_name_of(*self.body) == Some(nm) ==> (r matches Ok(v) && v@ == old(
                context,
            ).objects@[id]@[0]@) && final(context).state is Return))),
            iterated_object(*self.iterable, *old(context)) matches Some(id) ==> (block_head(
                *self.variable,
            ) is Some ==> (const_value(*self.body) matches Some(bc) ==> (r matches Ok(v) && v@ == (
            if old(context).objects@[id]@.len() > 0 {
                bc
            } else {
                AbstractValue::Undefined
            })) && final(context).state is Executing)),
            iterated_object(*self.iterable, *old(context)) matches Some(id) ==> (block_head(
                *self.variable,
            ) matches Some((nm, m)) ==> (*self.body matches Node::Identifier(x) ==> (x@ == nm
                ==> (r matches Ok(v) && v@ == (if old(context).objects@[id]@.len() > 0 {
                old(context).objects@[id]@.last()@
            } else {
                AbstractValue::Undefined
            })) && final(context).state is Executing))),
            iterated_object(*self.iterable, *old(context)) matches Some(id) ==> (
            captures_own_binding(*self) ==> r is Ok && final(context).state is Executing
                && fresh_captures_of_elements(
                *old(context),
                *final(context),
                id,
                block_head(*self.variable).unwrap().0,
            )),
            iterated_object(*self.iterable, *old(context)) matches Some(id) ==> (old(
                context,
            ).objects@[id]@.len() > 0 && body_runs_all(*self.body) ==> (chain_head(
                *self.variable,
            ) matches Some((nm, del)) ==> (head_bindable(*old(context), nm) ==> r is Ok
                && final(context).state is Executing && loop_var_binding_after(
                *old(context),
                *final(context),
                nm,
                del,
                old(context).objects@[id]@.last()@,
            )))),
            iterated_object(*self.iterable, *old(context)) matches Some(id) ==> (old(
                context,
            ).objects@[id]@.len() > 0 ==> (block_head(*self.variable) matches Some((nm, m)) ==> (
            *self.body matches Node::Identifier(x) ==> (x@ != nm && old(context).resolve_in(
                old(context).current as int,
                x@,
            ) is None ==> (r matches Err(e) && e is Reference))))),
        decreases *self,
    {
        let ghost direct = iterated_object(*self.iterable, *old(context));
        let iterable = match self.iterable().run(context) {
            Ok(v) => v,
            Err(e) => {
                return Err(e);
            },
        };
        match &context.state {
            InterpreterState::Executing => {},
            _ => {
                // a control-flow statement is not legal in the head of a
                // for loop: a structural error, and the signal is dropped
                context.state = InterpreterState::Executing;
                return Err(
                    InterpreterError::Syntax(
                        "illegal control flow in head of for loop".to_owned(),
                    ),
                );
            },
        }
        proof {
            // a literal or a bare name evaluates without touching the
            // context, to the value the contract clauses are keyed on
            if evaluated_value(*self.iterable, *old(context)) is Some {
                assert(*context == *old(context));
                assert(iterable@ == evaluated_value(*self.iterable, *old(context)).unwrap());
            }
        }
        let mut iterator = match get_iterator(context, &iterable) {
            Ok(it) => it,
            Err(e) => {
                return Err(e);
            },
        };
        let mut result = Value::Undefined;
        let mut looping = true;
        while looping
            invariant
                context.wf(),
                extends(*context, *old(context)),
                context.current == old(context).current,
                context.state is Executing,
                (iterator.object as int) < context.objects@.len(),
                direct matches Some(id) ==> iterator.object == id,
                direct matches Some(id) && old(context).objects@[id]@.len() == 0 ==> result is Undefined && context.captures == old(context).captures,
                direct matches Some(id) && old(context).objects@[id]@.len() > 0 && !valid_for_head(*self.variable) ==> context.captures == old(context).captures && iterator.position == 0 && looping,
                direct matches Some(id) ==> (block_head(*self.variable) is Some
                    ==> (break_label_of(*self.body) is Some || continue_label_of(*self.body)
                    is Some ==> result is Undefined)),
                direct matches Some(id) ==> (old(context).objects@[id]@.len() > 0
                    && block_head(*self.variable) is Some ==> (return_const_value(*self.body)
                    is Some ==> looping && iterator.position == 0)),
                direct matches Some(id) ==> (old(context).objects@[id]@.len() > 0 ==> (
                block_head(*self.variable) matches Some((nm, m)) ==> (return_name_of(*self.body)
                    == Some(nm) ==> looping && iterator.position == 0))),
                direct matches Some(id) ==> (block_head(*self.variable) is Some ==> (
                const_value(*self.body) matches Some(bc) ==> result@ == (
                if iterator.position == 0 {
                    AbstractValue::Undefined
                } else {
                    bc
                }) && (!looping ==> iterator.position >= context.objects@[
                    iterator.object as int
                ]@.len()))),
                direct matches Some(id) ==> (block_head(*self.variable) matches Some((nm, m))
                    ==> (*self.body matches Node::Identifier(x) ==> (x@ == nm ==> result@ == (
                if iterator.position == 0 {
                    AbstractValue::Undefined
                } else {
                    old(context).objects@[id]@[iterator.position - 1]@
                }) && (!looping ==> iterator.position >= old(context).objects@[id]@.len())))),
                direct matches Some(id) ==> (captures_own_binding(*self)
                    ==> fresh_captures_so_far(
                    *old(context),
                    *context,
                    id,
                    block_head(*self.variable).unwrap().0,
                    iterator.position as int,
                ) && (!looping ==> iterator.position >= context.objects@[
                    iterator.object as int
                ]@.len())),
                direct matches Some(id) ==> (chain_head(*self.variable) matches Some((nm, del))
                    ==> (head_bindable(*old(context), nm) && body_runs_all(*self.body) ==> ((
                iterator.position == 0 ==> context.resolve_in(old(context).current as int, nm)
                    == old(context).resolve_in(old(context).current as int, nm)) && (
                iterator.position > 0 ==> loop_var_binding_after(
                    *old(context),
                    *context,
                    nm,
                    del,
                    old(context).objects@[id]@[iterator.position - 1]@,
                )) && (!looping ==> iterator.position >= old(context).objects@[id]@.len())))),
                direct matches Some(id) ==> (old(context).objects@[id]@.len() > 0 ==> (
                block_head(*self.variable) matches Some((nm, m)) ==> (*self.body
                    matches Node::Identifier(x) ==> (x@ != nm && old(context).resolve_in(
                    old(context).current as int,
                    x@,
                ) is None ==> looping && iterator.position == 0 && context.resolve_in(
                    old(context).current as int,
                    x@,
                ) is None)))),
                iterator.position <= context.objects@[iterator.object as int]@.len(),
            decreases context.objects@[iterator.object as int]@.len() - iterator.position + (
            if looping {
                1int
            } else {
                0int
            }),
        {
            let ghost head = *context;
            let ghost pos0: usize = iterator.position;
            context.push(false);
            proof {
                assert forall|k: int|
                    0 <= k < head.envs@.len() implies #[trigger] context.envs@[k]
                    == head.envs@[k] by {
                    assert(context.envs@.subrange(0, head.envs@.len() as int)[k]
                        == head.envs@[k]);
                }
                assert(extends(*context, head));
                lemma_extends_trans(*old(context), head, *context);
            }
            let ghost opened = *context;
            proof {
                if direct is Some {
                    // scope shape below the fresh record is unchanged, so
                    // the function-scope target and name resolution pass
                    // through the empty fresh scope to the loop's own
                    lemma_function_env_same(head, opened, head.current as int);
                    lemma_function_env_same(*old(context), head, head.current as int);
                    assert(opened.function_env_of(opened.current as int)
                        == opened.function_env_of(head.current as int));
                    if chain_head(*self.variable) is Some {
                        let nm = chain_head(*self.variable).unwrap().0;
                        assert(env_find(opened.envs@[opened.current as int].bindings@, nm)
                            is None);
                        lemma_resolve_same(head, opened, head.current as int, nm);
                        assert(opened.resolve_in(opened.current as int, nm) == head.resolve_in(
                            head.current as int,
                            nm,
                        ));
                        match head.resolve_in(head.current as int, nm) {
                            Option::Some(rb0) => {
                                lemma_resolve_env_le(head, head.current as int, nm);
                            },
                            Option::None => {
                                lemma_resolve_none_function_env(head, head.current as int, nm);
                            },
                        }
                    }
                }
            }
            let iterator_result = match iterator.next(context) {
                Ok(ir) => ir,
                Err(e) => {
                    context.pop();
                    return Err(e);
                },
            };
            if iterator_result.is_done() {
                context.pop();
                proof {
                    assert forall|j: int|
                        0 <= j < head.envs@.len() implies head.envs@[j]
                        == #[trigger] context.envs@[j] by {
                        assert(context.envs@.subrange(0, head.envs@.len() as int)[j]
                            == context.envs@[j]);
                    }
                    if direct is Some && chain_head(*self.variable) is Some {
                        // the opened-and-closed empty scope left resolution
                        // as it stood
                        lemma_resolve_same(head, *context, head.current as int, chain_head(*self.variable).unwrap().0);
                    }
                    if direct is Some && captures_own_binding(*self) {
                        let id: int = direct.unwrap();
                        let nm = block_head(*self.variable).unwrap().0;
                        let base = old(context).captures@.len() as int;
                        assert forall|k: int|
                            0 <= k < iterator.position implies capture_binding_holds(
                            *context,
                            #[trigger] context.captures@[base + k],
                            nm,
                            old(context).objects@[id]@[k]@,
                        ) by {
                            let cap = head.captures@[base + k];
                            assert(capture_binding_holds(
                                head,
                                cap,
                                nm,
                                old(context).objects@[id]@[k]@,
                            ));
                            assert(context.captures@[base + k] == cap);
                            assert(context.envs@.subrange(
                                0,
                                head.envs@.len() as int,
                            )[cap.env as int] == context.envs@[cap.env as int]);
                            assert(context.envs@[cap.env as int] == head.envs@[cap.env as int]);
                        }
                    }
                }
                looping = false;
            } else {
                let next_result = iterator_result.value();
                let ghost nv = next_result@;
                match bind_loop_variable(self.variable(), next_result, context) {
                    Ok(_) => {},
                    Err(e) => {
                        proof {
                            lemma_extends_trans(*old(context), opened, *context);
                            assert(context.envs@[opened.current as int].parent == Some(
                                head.current,
                            ));
                        }
                        context.pop();
                        return Err(e);
                    },
                }
                proof {
                    lemma_extends_trans(*old(context), opened, *context);
                    if direct is Some && chain_head(*self.variable) is Some && head_bindable(
                        *old(context),
                        chain_head(*self.variable).unwrap().0,
                    ) && body_runs_all(*self.body) {
                        // the bound name now resolves, from the loop's own
                        // scope, to the element just pulled
                        let nm = chain_head(*self.variable).unwrap().0;
                        let del = chain_head(*self.variable).unwrap().1;
                        let hc = head.current as int;
                        let res = context.resolve_in(opened.current as int, nm);
                        assert(res is Some);
                        let t = res.unwrap().0;
                        assert(t <= hc);
                        assert(env_find(context.envs@[opened.current as int].bindings@, nm)
                            is None) by {
                            if env_find(
                                context.envs@[opened.current as int].bindings@,
                                nm,
                            ) is Some {
                                assert(t == opened.current as int);
                            }
                        }
                        assert(context.resolve_in(hc, nm) == res);
                        assert(loop_var_binding_after(*old(context), *context, nm, del, nv));
                    }
                    if direct is Some && block_head(*self.variable) is Some {
                        let nm = block_head(*self.variable).unwrap().0;
                        // the fresh scope holds the declared loop variable,
                        // initialized to the pulled element, and nothing else
                        assert(context.resolve_in(opened.current as int, nm) matches Some(rb)
                            && rb.0 == opened.current as int && rb.1.initialized && rb.1.value@
                            == nv);
                        match &*self.body {
                            Node::Identifier(x) => {
                                if x@ != nm && old(context).resolve_in(
                                    head.current as int,
                                    x@,
                                ) is None {
                                    assert(env_find(
                                        context.envs@[opened.current as int].bindings@,
                                        x@,
                                    ) is None);
                                    assert forall|j: int|
                                        0 <= j <= head.current as int implies context.envs@[j]
                                        == #[trigger] head.envs@[j] by {
                                        assert(context.envs@[j] == opened.envs@[j]);
                                    }
                                    lemma_resolve_same(head, *context, head.current as int, x@);
                                    assert(context.resolve_in(
                                        opened.current as int,
                                        x@,
                                    ) is None);
                                }
                            },
                            _ => {},
                        }
                    }
                }
                let ghost bound = *context;
                result = match self.body().run(context) {
                    Ok(v) => v,
                    Err(e) => {
                        proof {
                            lemma_extends_trans(*old(context), bound, *context);
                            assert(context.envs@[opened.current as int].parent == Some(
                                head.current,
                            ));
                        }
                        context.pop();
                        return Err(e);
                    },
                };
                proof {
                    lemma_extends_trans(*old(context), bound, *context);
                    assert(context.envs@[opened.current as int].parent == Some(head.current));
                }
                let ghost ran = *context;
                match &context.state {
                    InterpreterState::Break(_) => {
                        // loops consume breaks
                        context.state = InterpreterState::Executing;
                        looping = false;
                    },
                    InterpreterState::Continue(_) => {
                        context.state = InterpreterState::Executing;
                    },
                    InterpreterState::Return => {
                        context.pop();
                        return Ok(result);
                    },
                    InterpreterState::Executing => {},
                }
                context.pop();
                proof {
                    if direct is Some && chain_head(*self.variable) is Some && head_bindable(
                        *old(context),
                        chain_head(*self.variable).unwrap().0,
                    ) && body_runs_all(*self.body) {
                        let nm = chain_head(*self.variable).unwrap().0;
                        let del = chain_head(*self.variable).unwrap().1;
                        assert(ran.envs == bound.envs);
                        assert forall|j: int|
                            0 <= j <= head.current as int implies bound.envs@[j]
                            == #[trigger] context.envs@[j] by {}
                        lemma_resolve_same(bound, *context, head.current as int, nm);
                        assert(loop_var_binding_after(*old(context), *context, nm, del, nv));
                    }
                    if direct is Some && captures_own_binding(*self) {
                        let id: int = direct.unwrap();
                        let nm = block_head(*self.variable).unwrap().0;
                        let base = old(context).captures@.len() as int;
                        let fresh = opened.current as int;
                        assert(fresh == head.envs@.len());
                        assert forall|k: int|
                            0 <= k < iterator.position implies capture_binding_holds(
                            *context,
                            #[trigger] context.captures@[base + k],
                            nm,
                            old(context).objects@[id]@[k]@,
                        ) by {
                            if k < pos0 {
                                let cap = head.captures@[base + k];
                                assert(capture_binding_holds(
                                    head,
                                    cap,
                                    nm,
                                    old(context).objects@[id]@[k]@,
                                ));
                                assert(bound.captures@[base + k] == cap);
                                assert(ran.captures@.subrange(
                                    0,
                                    bound.captures@.len() as int,
                                )[base + k] == ran.captures@[base + k]);
                                assert(context.captures@[base + k] == cap);
                                assert(opened.envs@.subrange(
                                    0,
                                    head.envs@.len() as int,
                                )[cap.env as int] == opened.envs@[cap.env as int]);
                                assert(opened.envs@[cap.env as int] == head.envs@[cap.env as int]);
                                assert(bound.envs@[cap.env as int] == opened.envs@[cap.env as int]);
                                assert(context.envs@[cap.env as int] == bound.envs@[cap.env as int]);
                            } else {
                                assert(k == pos0);
                                assert(context.captures@[base + k] == ran.captures@.last());
                                assert(ran.captures@.last().env == bound.current);
                                assert(bound.current == opened.current);
                                assert(env_find(bound.envs@[fresh].bindings@, nm) is Some);
                                assert(env_find(bound.envs@[fresh].bindings@, nm).unwrap().initialized);
                                assert(env_find(bound.envs@[fresh].bindings@, nm).unwrap().value@ == nv);
                                assert(context.envs@[fresh] == bound.envs@[fresh]);
                                assert(nv == old(context).objects@[id]@[k]@);
                            }
                        }
                        assert(context.captures@.len() == base + iterator.position);
                    }
                }
            }
        }
        Ok(result)
    }
}

} // verus!
