//! The evaluator.

use std::rc::Rc;
use vstd::prelude::*;

use crate::builtin::{
    builtin_kind_of, builtin_result, call_builtin_function, is_builtin, perform_write, write_text,
};
use crate::expr::{flat_copy, ClosureAST, ExprAST};
use crate::parser::{function_block, BlockAST, FunctionAST, ProgramAST, StatementAST};
use crate::text::{chars_of, str_eq, string_from_chars, string_of};

verus! {

/// Why evaluation stopped. Every error is fatal to the program.
#[derive(Debug)]
pub enum EvalError {
    /// A name that is neither bound, a function nor a built-in.
    UndefinedName(String),
    /// A `let` or read target that is already bound or names a function.
    Shadowing(String),
    /// A call through a binding that does not hold a callable.
    NotCallable(String),
    /// A call with the wrong number of arguments.
    ArityMismatch,
    /// A value of the wrong kind for the operation.
    TypeMismatch,
    /// An `if` condition that is not a boolean.
    NotBoolean,
    /// Integer arithmetic that leaves the 64-bit range.
    Overflow,
    /// `hd` or `tl` of the empty list.
    EmptyList,
    /// `atoi` on a string that is not a decimal numeral.
    BadNumber,
    /// An input/output statement outside `main`.
    IoOutsideMain,
    /// The `Error` expression, or a built-in name that is not one.
    ErrorExpression,
    /// The evaluation budget ran out.
    OutOfFuel,
    /// The program has no function `main`.
    MainNotFound,
    /// An input/output procedure that does not exist.
    UnknownProcedure(String),
    /// A handle that has not been opened.
    UnknownHandle(String),
    /// A read from a handle opened for writing, or the other way round.
    WrongMode(String),
    /// A line was handed over while no read statement was waiting for one.
    NoPendingRead,
}

/// A value that can stand in call position.
#[derive(Debug)]
pub enum CallableObject {
    GlobalFunction(String),
    BuiltinFunction(String),
    Closure(Rc<ClosureAST>, Rc<Env>),
}

/// A scope: a chain of bindings, the newest first. Extending a scope never
/// changes it, so a closure can share the scope it was created in.
#[derive(Debug)]
pub enum Env {
    Empty,
    Bind { name: String, value: ExprAST, rest: Rc<Env> },
}

/// The functions of a program other than `main`.
pub struct GlobalState {
    pub global_scope: Vec<FunctionAST>,
}

/// The function a name denotes among `fs`; a later definition hides an
/// earlier one.
pub open spec fn find_function(fs: Seq<FunctionAST>, name: Seq<char>) -> Option<FunctionAST>
    decreases fs.len(),
{
    if fs.len() == 0 {
        None
    } else if fs.last().function_name@ == name {
        Some(fs.last())
    } else {
        find_function(fs.drop_last(), name)
    }
}

pub open spec fn is_global(fs: Seq<FunctionAST>, name: Seq<char>) -> bool {
    find_function(fs, name) is Some
}

/// The value the newest binding of `name` in a scope holds.
pub open spec fn lookup(env: Env, name: Seq<char>) -> Option<ExprAST>
    decreases env,
{
    match env {
        Env::Empty => None,
        Env::Bind { name: n, value, rest } => if n@ == name {
            Some(value)
        } else {
            lookup(*rest, name)
        },
    }
}

/// `env` extended with `names[i]` bound to `vals[i]`, in order.
pub open spec fn bind_all(env: Env, names: Seq<String>, vals: Seq<ExprAST>) -> Env
    decreases names.len(),
{
    if names.len() == 0 || vals.len() == 0 {
        env
    } else {
        Env::Bind {
            name: names.last(),
            value: vals.last(),
            rest: Rc::new(bind_all(env, names.drop_last(), vals.drop_last())),
        }
    }
}

/// What a name used as a value denotes: a global function, else a
/// built-in, else its binding in scope.
pub open spec fn resolve_variable(g: Seq<FunctionAST>, env: Env, v: String) -> Result<
    ExprAST,
    EvalError,
> {
    if is_global(g, v@) {
        Ok(ExprAST::Callable(CallableObject::GlobalFunction(v)))
    } else if is_builtin(v@) {
        Ok(ExprAST::Callable(CallableObject::BuiltinFunction(v)))
    } else {
        match lookup(env, v@) {
            Some(x) => Ok(flat_copy(x)),
            None => Err(EvalError::UndefinedName(v)),
        }
    }
}

/// The value of an expression in scope `env`, with the functions `g` and an
/// evaluation budget of `fuel` steps.
pub open spec fn eval_expr(g: Seq<FunctionAST>, env: Env, e: ExprAST, fuel: nat) -> Result<
    ExprAST,
    EvalError,
>
    decreases fuel, 0int,
{
    if fuel == 0 {
        Err(EvalError::OutOfFuel)
    } else {
        let f = (fuel - 1) as nat;
        match e {
            ExprAST::Int(_) | ExprAST::Bool(_) | ExprAST::StringLiteral(_) | ExprAST::Callable(_)
            | ExprAST::List(_) => Ok(e),
            ExprAST::Variable(v) => resolve_variable(g, env, v),
            ExprAST::Block(b) => eval_block(g, env, b, f),
            ExprAST::If(ie) => match eval_expr(g, env, *ie.condition, f) {
                Ok(ExprAST::Bool(c)) => eval_block(
                    g,
                    env,
                    if c {
                        ie.then_case
                    } else {
                        ie.else_case
                    },
                    f,
                ),
                Ok(_) => Err(EvalError::NotBoolean),
                Err(x) => Err(x),
            },
            ExprAST::Closure(c) => Ok(ExprAST::Callable(CallableObject::Closure(c, Rc::new(env)))),
            ExprAST::CallCallableObjectByname(name, args) => match eval_args(
                g,
                env,
                args@,
                0,
                Seq::empty(),
                f,
            ) {
                Ok(vals) => call_by_name(g, env, name, vals, f),
                Err(x) => Err(x),
            },
            ExprAST::CallBuiltinFunction(name, args) => match eval_args(
                g,
                env,
                args@,
                0,
                Seq::empty(),
                f,
            ) {
                Ok(vals) => builtin_result(name, vals),
                Err(x) => Err(x),
            },
            ExprAST::Error => Err(EvalError::ErrorExpression),
        }
    }
}

/// The values of `args[i..]` appended to `acc`, evaluated left to right;
/// the first failure is the result.
pub open spec fn eval_args(
    g: Seq<FunctionAST>,
    env: Env,
    args: Seq<Box<ExprAST>>,
    i: int,
    acc: Seq<ExprAST>,
    fuel: nat,
) -> Result<Seq<ExprAST>, EvalError>
    decreases fuel, args.len() - i,
{
    if i < 0 || i >= args.len() {
        Ok(acc)
    } else {
        match eval_expr(g, env, *args[i], fuel) {
            Ok(v) => eval_args(g, env, args, i + 1, acc.push(v), fuel),
            Err(x) => Err(x),
        }
    }
}

/// A call by name on evaluated arguments: through a binding in scope that
/// holds a callable, else a built-in, else a global function.
pub open spec fn call_by_name(
    g: Seq<FunctionAST>,
    env: Env,
    name: String,
    vals: Seq<ExprAST>,
    fuel: nat,
) -> Result<ExprAST, EvalError>
    decreases fuel, 0int,
{
    if fuel == 0 {
        Err(EvalError::OutOfFuel)
    } else {
        let f = (fuel - 1) as nat;
        match lookup(env, name@) {
            Some(ExprAST::Callable(c)) => apply_callable(g, c, vals, f),
            Some(_) => Err(EvalError::NotCallable(name)),
            None => if is_builtin(name@) {
                builtin_result(name, vals)
            } else {
                match find_function(g, name@) {
                    Some(fun) => apply_function(g, fun, vals, f),
                    None => Err(EvalError::UndefinedName(name)),
                }
            },
        }
    }
}

/// A callable applied to evaluated arguments.
pub open spec fn apply_callable(
    g: Seq<FunctionAST>,
    c: CallableObject,
    vals: Seq<ExprAST>,
    fuel: nat,
) -> Result<ExprAST, EvalError>
    decreases fuel, 0int,
{
    if fuel == 0 {
        Err(EvalError::OutOfFuel)
    } else {
        let f = (fuel - 1) as nat;
        match c {
            CallableObject::GlobalFunction(n) => match find_function(g, n@) {
                Some(fun) => apply_function(g, fun, vals, f),
                None => Err(EvalError::UndefinedName(n)),
            },
            CallableObject::BuiltinFunction(n) => builtin_result(n, vals),
            CallableObject::Closure(cl, cap) => if cl.params.len() != vals.len() {
                Err(EvalError::ArityMismatch)
            } else {
                eval_block(g, bind_all(*cap, cl.params@, vals), cl.block, f)
            },
        }
    }
}

/// A global function applied to evaluated arguments, in a scope that holds
/// its parameters only.
pub open spec fn apply_function(
    g: Seq<FunctionAST>,
    fun: FunctionAST,
    vals: Seq<ExprAST>,
    fuel: nat,
) -> Result<ExprAST, EvalError>
    decreases fuel, 0int,
{
    if fuel == 0 {
        Err(EvalError::OutOfFuel)
    } else if fun.arguments.len() != vals.len() {
        Err(EvalError::ArityMismatch)
    } else {
        eval_block(g, bind_all(Env::Empty, fun.arguments@, vals), function_block(fun), (fuel - 1) as nat)
    }
}

/// The value of a block: its `let` statements bind in turn, then its return
/// expression is evaluated in the extended scope.
pub open spec fn eval_block(g: Seq<FunctionAST>, env: Env, b: BlockAST, fuel: nat) -> Result<
    ExprAST,
    EvalError,
>
    decreases fuel, 0int,
{
    if fuel == 0 {
        Err(EvalError::OutOfFuel)
    } else {
        let f = (fuel - 1) as nat;
        match run_lets(g, env, b.statements@, 0, f) {
            Ok(env2) => eval_expr(g, env2, *b.return_expr, f),
            Err(x) => Err(x),
        }
    }
}

/// The scope after the statements `stmts[i..]` of a block other than
/// `main`'s: each must be a `let` whose name is new to the scope and to the
/// functions.
pub open spec fn run_lets(g: Seq<FunctionAST>, env: Env, stmts: Seq<StatementAST>, i: int, fuel: nat) -> Result<
    Env,
    EvalError,
>
    decreases fuel, stmts.len() - i,
{
    if i < 0 || i >= stmts.len() {
        Ok(env)
    } else {
        match stmts[i] {
            StatementAST::Bind(lb) => if lookup(env, lb.variable@) is Some || is_global(
                g,
                lb.variable@,
            ) {
                Err(EvalError::Shadowing(lb.variable))
            } else {
                match eval_expr(g, env, *lb.expr, fuel) {
                    Ok(v) => run_lets(
                        g,
                        Env::Bind { name: lb.variable, value: v, rest: Rc::new(env) },
                        stmts,
                        i + 1,
                        fuel,
                    ),
                    Err(x) => Err(x),
                }
            },
            _ => Err(EvalError::IoOutsideMain),
        }
    }
}

/// The value the newest binding of `name` in scope holds.
fn lookup_local_variable<'a>(env: &'a Env, name: &String) -> (r: Option<&'a ExprAST>)
    ensures
        match r {
            Some(x) => lookup(*env, name@) == Some(*x),
            None => lookup(*env, name@) is None,
        },
    decreases env,
{
    match env {
        Env::Empty => None,
        Env::Bind { name: n, value, rest } => {
            if *n == *name {
                Some(value)
            } else {
                lookup_local_variable(&**rest, name)
            }
        },
    }
}

impl GlobalState {
    /// The global function named `func_name`, the last one defined.
    pub fn find_global_function(&self, func_name: &String) -> (r: Option<&FunctionAST>)
        ensures
            match r {
                Some(f) => find_function(self.global_scope@, func_name@) == Some(*f),
                None => find_function(self.global_scope@, func_name@) is None,
            },
    {
        let ghost fs = self.global_scope@;
        let mut i: usize = self.global_scope.len();
        assert(fs.subrange(0, i as int) =~= fs);
        while i > 0
            invariant
                i <= fs.len(),
                fs == self.global_scope@,
                find_function(fs, func_name@) == find_function(fs.subrange(0, i as int), func_name@),
            decreases i,
        {
            proof {
                assert(fs.subrange(0, i as int).drop_last() =~= fs.subrange(0, i - 1));
            }
            if self.global_scope[i - 1].function_name == *func_name {
                return Some(&self.global_scope[i - 1]);
            }
            i -= 1;
        }
        None
    }

    /// Whether `var` names a global function.
    pub fn has_identifier(&self, var: &String) -> (r: bool)
        ensures
            r == is_global(self.global_scope@, var@),
    {
        self.find_global_function(var).is_some()
    }
}

/// `env` extended with each of `names` bound to the value at its position.
fn bind_values(env: Rc<Env>, names: &Vec<String>, vals: Vec<ExprAST>) -> (r: Rc<Env>)
    requires
        names.len() == vals.len(),
    ensures
        *r == bind_all(*env, names@, vals@),
{
    let ghost all = vals@;
    let mut vals = vals;
    let mut cur = env;
    let mut i: usize = 0;
    while i < names.len()
        invariant
            all.len() == names@.len(),
            i <= names@.len(),
            vals@ == all.subrange(i as int, all.len() as int),
            *cur == bind_all(*env, names@.subrange(0, i as int), all.subrange(0, i as int)),
        decreases names.len() - i,
    {
        let v = vals.remove(0);
        proof {
            assert(names@.subrange(0, i + 1).drop_last() =~= names@.subrange(0, i as int));
            assert(all.subrange(0, i + 1).drop_last() =~= all.subrange(0, i as int));
            assert(vals@ =~= all.subrange(i + 1, all.len() as int));
        }
        cur = Rc::new(Env::Bind { name: names[i].clone(), value: v, rest: cur });
        i += 1;
    }
    proof {
        assert(names@.subrange(0, i as int) =~= names@);
        assert(all.subrange(0, i as int) =~= all);
    }
    cur
}

fn resolve_var(globals: &GlobalState, env: &Rc<Env>, v: &String) -> (r: Result<ExprAST, EvalError>)
    ensures
        r == resolve_variable(globals.global_scope@, **env, *v),
{
    if globals.has_identifier(v) {
        Ok(ExprAST::Callable(CallableObject::GlobalFunction(v.clone())))
    } else if builtin_kind_of(v).is_some() {
        Ok(ExprAST::Callable(CallableObject::BuiltinFunction(v.clone())))
    } else {
        match lookup_local_variable(&**env, v) {
            Some(x) => Ok(x.copy_flat()),
            None => Err(EvalError::UndefinedName(v.clone())),
        }
    }
}

/// Evaluates an expression in scope `env`: literals and values stand for
/// themselves, names resolve to a global function, a built-in or a binding,
/// calls evaluate their arguments left to right before the callee runs, and
/// a closure captures `env`. Each level of nesting (a sub-expression, a
/// call, a block) uses one unit of `fuel`; evaluation that would nest deeper
/// than `fuel` stops with `OutOfFuel`.
pub fn eval(globals: &GlobalState, env: &Rc<Env>, expr: &ExprAST, fuel: u64) -> (r: Result<
    ExprAST,
    EvalError,
>)
    ensures
        r == eval_expr(globals.global_scope@, **env, *expr, fuel as nat),
    decreases fuel, 0int,
{
    if fuel == 0 {
        return Err(EvalError::OutOfFuel);
    }
    let f = fuel - 1;
    match expr {
        ExprAST::Int(_) | ExprAST::Bool(_) | ExprAST::StringLiteral(_) | ExprAST::Callable(_)
        | ExprAST::List(_) => Ok(expr.copy_flat()),
        ExprAST::Variable(v) => resolve_var(globals, env, v),
        ExprAST::Block(b) => eval_block_parts(globals, env, &b.statements, &b.return_expr, f),
        ExprAST::If(ie) => match eval(globals, env, &ie.condition, f) {
            Ok(ExprAST::Bool(c)) => {
                if c {
                    eval_block_parts(globals, env, &ie.then_case.statements, &ie.then_case.return_expr, f)
                } else {
                    eval_block_parts(globals, env, &ie.else_case.statements, &ie.else_case.return_expr, f)
                }
            },
            Ok(_) => Err(EvalError::NotBoolean),
            Err(x) => Err(x),
        },
        ExprAST::Closure(c) => Ok(ExprAST::Callable(CallableObject::Closure(Rc::clone(c), Rc::clone(env)))),
        ExprAST::CallCallableObjectByname(name, args) => match eval_arguments(globals, env, args, f) {
            Ok(vals) => call_by_name_exec(globals, env, name, vals, f),
            Err(x) => Err(x),
        },
        ExprAST::CallBuiltinFunction(name, args) => match eval_arguments(globals, env, args, f) {
            Ok(vals) => call_builtin_function(name, vals),
            Err(x) => Err(x),
        },
        ExprAST::Error => Err(EvalError::ErrorExpression),
    }
}

/// Evaluates the arguments of a call, left to right, stopping at the first
/// failure.
fn eval_arguments(globals: &GlobalState, env: &Rc<Env>, args: &Vec<Box<ExprAST>>, fuel: u64) -> (r: Result<
    Vec<ExprAST>,
    EvalError,
>)
    ensures
        match r {
            Ok(v) => eval_args(globals.global_scope@, **env, args@, 0, Seq::empty(), fuel as nat) == Ok::<Seq<ExprAST>, EvalError>(v@),
            Err(x) => eval_args(globals.global_scope@, **env, args@, 0, Seq::empty(), fuel as nat) == Err::<Seq<ExprAST>, EvalError>(x),
        },
    decreases fuel, 1int,
{
    let ghost g = globals.global_scope@;
    let mut vals: Vec<ExprAST> = Vec::new();
    let mut i: usize = 0;
    while i < args.len()
        invariant
            i <= args@.len(),
            g == globals.global_scope@,
            eval_args(g, **env, args@, 0, Seq::empty(), fuel as nat) == eval_args(g, **env, args@, i as int, vals@, fuel as nat),
        decreases args.len() - i,
    {
        match eval(globals, env, &args[i], fuel) {
            Ok(v) => {
                vals.push(v);
            },
            Err(x) => {
                return Err(x);
            },
        }
        i += 1;
    }
    Ok(vals)
}

/// Runs the `let` statements of a block, each binding a name new to the
/// scope and to the global functions; any other statement fails.
fn run_lets_exec(globals: &GlobalState, env: &Rc<Env>, stmts: &Vec<StatementAST>, fuel: u64) -> (r: Result<
    Rc<Env>,
    EvalError,
>)
    ensures
        match r {
            Ok(e) => run_lets(globals.global_scope@, **env, stmts@, 0, fuel as nat) == Ok::<Env, EvalError>(*e),
            Err(x) => run_lets(globals.global_scope@, **env, stmts@, 0, fuel as nat) == Err::<Env, EvalError>(x),
        },
    decreases fuel, 1int,
{
    let ghost g = globals.global_scope@;
    let mut cur: Rc<Env> = Rc::clone(env);
    let mut i: usize = 0;
    while i < stmts.len()
        invariant
            i <= stmts@.len(),
            g == globals.global_scope@,
            run_lets(g, **env, stmts@, 0, fuel as nat) == run_lets(g, *cur, stmts@, i as int, fuel as nat),
        decreases stmts.len() - i,
    {
        match &stmts[i] {
            StatementAST::Bind(lb) => {
                if lookup_local_variable(&*cur, &lb.variable).is_some() || globals.has_identifier(&lb.variable) {
                    return Err(EvalError::Shadowing(lb.variable.clone()));
                }
                match eval(globals, &cur, &lb.expr, fuel) {
                    Ok(v) => {
                        cur = Rc::new(Env::Bind { name: lb.variable.clone(), value: v, rest: cur });
                    },
                    Err(x) => {
                        return Err(x);
                    },
                }
            },
            _ => {
                return Err(EvalError::IoOutsideMain);
            },
        }
        i += 1;
    }
    Ok(cur)
}

/// Evaluates the block made of `stmts` and `ret`.
fn eval_block_parts(
    globals: &GlobalState,
    env: &Rc<Env>,
    stmts: &Vec<StatementAST>,
    ret: &Box<ExprAST>,
    fuel: u64,
) -> (r: Result<ExprAST, EvalError>)
    ensures
        r == eval_block(globals.global_scope@, **env, BlockAST { statements: *stmts, return_expr: *ret }, fuel as nat),
    decreases fuel, 0int,
{
    if fuel == 0 {
        return Err(EvalError::OutOfFuel);
    }
    let f = fuel - 1;
    match run_lets_exec(globals, env, stmts, f) {
        Ok(env2) => eval(globals, &env2, ret, f),
        Err(x) => Err(x),
    }
}

fn call_by_name_exec(
    globals: &GlobalState,
    env: &Rc<Env>,
    name: &String,
    vals: Vec<ExprAST>,
    fuel: u64,
) -> (r: Result<ExprAST, EvalError>)
    ensures
        r == call_by_name(globals.global_scope@, **env, *name, vals@, fuel as nat),
    decreases fuel, 0int,
{
    if fuel == 0 {
        return Err(EvalError::OutOfFuel);
    }
    let f = fuel - 1;
    match lookup_local_variable(&**env, name) {
        Some(ExprAST::Callable(c)) => apply_callable_exec(globals, c, vals, f),
        Some(_) => Err(EvalError::NotCallable(name.clone())),
        None => {
            if builtin_kind_of(name).is_some() {
                call_builtin_function(name, vals)
            } else {
                match globals.find_global_function(name) {
                    Some(fun) => apply_function_exec(globals, fun, vals, f),
                    None => Err(EvalError::UndefinedName(name.clone())),
                }
            }
        },
    }
}

fn apply_callable_exec(globals: &GlobalState, c: &CallableObject, vals: Vec<ExprAST>, fuel: u64) -> (r: Result<
    ExprAST,
    EvalError,
>)
    ensures
        r == apply_callable(globals.global_scope@, *c, vals@, fuel as nat),
    decreases fuel, 0int,
{
    if fuel == 0 {
        return Err(EvalError::OutOfFuel);
    }
    let f = fuel - 1;
    match c {
        CallableObject::GlobalFunction(n) => match globals.find_global_function(n) {
            Some(fun) => apply_function_exec(globals, fun, vals, f),
            None => Err(EvalError::UndefinedName(n.clone())),
        },
        CallableObject::BuiltinFunction(n) => call_builtin_function(n, vals),
        CallableObject::Closure(cl, cap) => {
            if cl.params.len() != vals.len() {
                return Err(EvalError::ArityMismatch);
            }
            let scope = bind_values(Rc::clone(cap), &cl.params, vals);
            eval_block_parts(globals, &scope, &cl.block.statements, &cl.block.return_expr, f)
        },
    }
}

fn apply_function_exec(globals: &GlobalState, fun: &FunctionAST, vals: Vec<ExprAST>, fuel: u64) -> (r: Result<
    ExprAST,
    EvalError,
>)
    ensures
        r == apply_function(globals.global_scope@, *fun, vals@, fuel as nat),
    decreases fuel, 0int,
{
    if fuel == 0 {
        return Err(EvalError::OutOfFuel);
    }
    if fun.arguments.len() != vals.len() {
        return Err(EvalError::ArityMismatch);
    }
    let scope = bind_values(Rc::new(Env::Empty), &fun.arguments, vals);
    eval_block_parts(globals, &scope, &fun.statements, &fun.return_expr, fuel - 1)
}

/// The name a `let` statement binds.
pub open spec fn let_name(st: StatementAST) -> Seq<char> {
    match st {
        StatementAST::Bind(lb) => lb.variable@,
        _ => Seq::empty(),
    }
}

proof fn lemma_rebinding_fails(g: Seq<FunctionAST>, env: Env, stmts: Seq<StatementAST>, k: int, j: int, fuel: nat)
    requires
        0 <= k <= j < stmts.len(),
        stmts[j] is Bind,
        lookup(env, let_name(stmts[j])) is Some || is_global(g, let_name(stmts[j])),
    ensures
        run_lets(g, env, stmts, k, fuel) is Err,
    decreases j - k,
{
    if k < j {
        match stmts[k] {
            StatementAST::Bind(lb) => {
                if !(lookup(env, lb.variable@) is Some || is_global(g, lb.variable@)) {
                    match eval_expr(g, env, *lb.expr, fuel) {
                        Ok(v) => {
                            let next = Env::Bind { name: lb.variable, value: v, rest: Rc::new(env) };
                            lemma_rebinding_fails(g, next, stmts, k + 1, j, fuel);
                        },
                        Err(_) => {},
                    }
                }
            },
            _ => {},
        }
    }
}

/// No shadowing: a block fails when one of its `let` statements binds a
/// name that its scope already binds (as an enclosing block's binding or a
/// parameter) or that names a global function.
pub proof fn law_let_of_visible_name_fails(g: Seq<FunctionAST>, env: Env, b: BlockAST, j: int, fuel: nat)
    requires
        0 <= j < b.statements@.len(),
        b.statements@[j] is Bind,
        lookup(env, let_name(b.statements@[j])) is Some || is_global(g, let_name(b.statements@[j])),
    ensures
        eval_block(g, env, b, fuel) is Err,
{
    if fuel > 0 {
        lemma_rebinding_fails(g, env, b.statements@, 0, j, (fuel - 1) as nat);
    }
}

proof fn lemma_double_let_fails(g: Seq<FunctionAST>, env: Env, stmts: Seq<StatementAST>, k: int, i: int, j: int, fuel: nat)
    requires
        0 <= k <= i < j < stmts.len(),
        stmts[i] is Bind,
        stmts[j] is Bind,
        let_name(stmts[i]) == let_name(stmts[j]),
    ensures
        run_lets(g, env, stmts, k, fuel) is Err,
    decreases i - k,
{
    match stmts[k] {
        StatementAST::Bind(lb) => {
            if !(lookup(env, lb.variable@) is Some || is_global(g, lb.variable@)) {
                match eval_expr(g, env, *lb.expr, fuel) {
                    Ok(v) => {
                        let next = Env::Bind { name: lb.variable, value: v, rest: Rc::new(env) };
                        if k < i {
                            lemma_double_let_fails(g, next, stmts, k + 1, i, j, fuel);
                        } else {
                            lemma_rebinding_fails(g, next, stmts, k + 1, j, fuel);
                        }
                    },
                    Err(_) => {},
                }
            }
        },
        _ => {},
    }
}

/// No shadowing: a block with two `let` statements of the same name fails.
pub proof fn law_double_let_fails(g: Seq<FunctionAST>, env: Env, b: BlockAST, i: int, j: int, fuel: nat)
    requires
        0 <= i < j < b.statements@.len(),
        b.statements@[i] is Bind,
        b.statements@[j] is Bind,
        let_name(b.statements@[i]) == let_name(b.statements@[j]),
    ensures
        eval_block(g, env, b, fuel) is Err,
{
    if fuel > 0 {
        lemma_double_let_fails(g, env, b.statements@, 0, i, j, (fuel - 1) as nat);
    }
}

proof fn lemma_args_fail_at(
    g: Seq<FunctionAST>,
    env: Env,
    args: Seq<Box<ExprAST>>,
    i: int,
    k: int,
    acc: Seq<ExprAST>,
    fuel: nat,
    x: EvalError,
)
    requires
        0 <= i <= k < args.len(),
        forall|m: int| i <= m < k ==> eval_expr(g, env, *#[trigger] args[m], fuel) is Ok,
        eval_expr(g, env, *args[k], fuel) == Err::<ExprAST, EvalError>(x),
    ensures
        eval_args(g, env, args, i, acc, fuel) == Err::<Seq<ExprAST>, EvalError>(x),
    decreases k - i,
{
    if i < k {
        let v = eval_expr(g, env, *args[i], fuel)->Ok_0;
        lemma_args_fail_at(g, env, args, i + 1, k, acc.push(v), fuel, x);
    }
}

/// Eager evaluation: when an argument of a call fails and the ones before
/// it succeed, the call fails with that argument's error, whatever the
/// callee is; the callee is never entered.
pub proof fn law_argument_failure_precedes_call(
    g: Seq<FunctionAST>,
    env: Env,
    name: String,
    args: Vec<Box<ExprAST>>,
    k: int,
    fuel: nat,
    x: EvalError,
)
    requires
        fuel > 0,
        0 <= k < args@.len(),
        forall|m: int| 0 <= m < k ==> eval_expr(g, env, *#[trigger] args@[m], (fuel - 1) as nat) is Ok,
        eval_expr(g, env, *args@[k], (fuel - 1) as nat) == Err::<ExprAST, EvalError>(x),
    ensures
        eval_expr(g, env, ExprAST::CallCallableObjectByname(name, args), fuel) == Err::<ExprAST, EvalError>(x),
{
    lemma_args_fail_at(g, env, args@, 0, k, Seq::empty(), (fuel - 1) as nat, x);
}

/// Closure capture: a closure literal captures the scope it is evaluated
/// in, and a call through a name bound to a closure runs in the captured
/// scope, so that two callers whose scopes differ in every other binding get
/// the same result.
pub proof fn law_closure_runs_in_captured_scope(
    g: Seq<FunctionAST>,
    env1: Env,
    env2: Env,
    name: String,
    c: Rc<ClosureAST>,
    cap: Rc<Env>,
    vals: Seq<ExprAST>,
    fuel: nat,
)
    requires
        fuel > 0,
        lookup(env1, name@) == Some(ExprAST::Callable(CallableObject::Closure(c, cap))),
        lookup(env2, name@) == Some(ExprAST::Callable(CallableObject::Closure(c, cap))),
    ensures
        eval_expr(g, env1, ExprAST::Closure(c), fuel) == Ok::<ExprAST, EvalError>(
            ExprAST::Callable(CallableObject::Closure(c, Rc::new(env1))),
        ),
        call_by_name(g, env1, name, vals, fuel) == call_by_name(g, env2, name, vals, fuel),
        call_by_name(g, env1, name, vals, fuel) == apply_callable(
            g,
            CallableObject::Closure(c, cap),
            vals,
            (fuel - 1) as nat,
        ),
{
}

/// If-branch isolation: an `if` evaluates only the chosen branch, in the
/// scope of the `if` itself; and a `let` whose value is an `if` extends the
/// scope by its own name alone, so no binding made inside a branch is
/// visible after it.
pub proof fn law_if_branch_isolation(
    g: Seq<FunctionAST>,
    env: Env,
    stmts: Seq<StatementAST>,
    i: int,
    fuel: nat,
    v: ExprAST,
)
    requires
        0 <= i < stmts.len(),
        stmts[i] is Bind,
        *(stmts[i]->Bind_0).expr is If,
        lookup(env, let_name(stmts[i])) is None,
        !is_global(g, let_name(stmts[i])),
        eval_expr(g, env, *(stmts[i]->Bind_0).expr, fuel) == Ok::<ExprAST, EvalError>(v),
    ensures
        ({
            let lb = stmts[i]->Bind_0;
            let ie = (*lb.expr)->If_0;
            let after = Env::Bind { name: lb.variable, value: v, rest: Rc::new(env) };
            &&& fuel > 0
            &&& eval_expr(g, env, *lb.expr, fuel) == match eval_expr(g, env, *ie.condition, (fuel - 1) as nat) {
                Ok(ExprAST::Bool(c)) => eval_block(g, env, if c { ie.then_case } else { ie.else_case }, (fuel - 1) as nat),
                Ok(_) => Err(EvalError::NotBoolean),
                Err(x) => Err(x),
            }
            &&& run_lets(g, env, stmts, i, fuel) == run_lets(g, after, stmts, i + 1, fuel)
            &&& forall|z: Seq<char>| z != lb.variable@ ==> lookup(after, z) == lookup(env, z)
        }),
{
}

/// How a handle was opened.
#[derive(PartialEq, Eq, Structural, Clone, Copy, Debug)]
pub enum IroncamelFileInfo {
    Read,
    Write,
    Stdin,
    Stdout,
}

pub open spec fn readable(i: IroncamelFileInfo) -> bool {
    i == IroncamelFileInfo::Read || i == IroncamelFileInfo::Stdin
}

pub open spec fn writable(i: IroncamelFileInfo) -> bool {
    i == IroncamelFileInfo::Write || i == IroncamelFileInfo::Stdout
}

/// A name under which `main` reaches a file or a standard stream.
pub struct Handle {
    pub name: String,
    pub info: IroncamelFileInfo,
}

/// How the newest handle of a name was opened.
pub open spec fn find_handle(hs: Seq<Handle>, name: Seq<char>) -> Option<IroncamelFileInfo>
    decreases hs.len(),
{
    if hs.len() == 0 {
        None
    } else if hs.last().name@ == name {
        Some(hs.last().info)
    } else {
        find_handle(hs.drop_last(), name)
    }
}

/// The mode an open procedure opens a file in.
pub open spec fn open_mode(procedure: Seq<char>) -> Option<IroncamelFileInfo> {
    if procedure == "fopen_read"@ {
        Some(IroncamelFileInfo::Read)
    } else if procedure == "fopen_write"@ {
        Some(IroncamelFileInfo::Write)
    } else {
        None
    }
}

/// A line without its trailing newline, if it has one.
pub open spec fn strip_newline(s: Seq<char>) -> Seq<char> {
    if s.len() > 0 && s.last() == '\n' {
        s.drop_last()
    } else {
        s
    }
}

/// What running `main` asks of the world next.
#[derive(Debug)]
pub enum Action {
    /// Open `path` in `mode`; the handle is registered already.
    Open { handle: String, path: String, mode: IroncamelFileInfo },
    /// Read one line from `handle` and hand it to `complete_read`.
    Read { handle: String },
    /// Write `text` to `handle`.
    Write { handle: String, text: String },
    /// A `let` statement ran; nothing to do.
    Continue,
    /// `main` has run its last statement.
    Finished,
}

/// The run of `main`: its statements, the scope built so far, the open
/// handles, the index of the next statement, and the nesting budget that
/// each evaluation of an expression gets.
pub struct MainSession {
    pub globals: GlobalState,
    pub statements: Vec<StatementAST>,
    pub env: Rc<Env>,
    pub handles: Vec<Handle>,
    pub next: usize,
    pub fuel: u64,
}

/// Whether `main` is the name of a function.
pub open spec fn is_main(f: FunctionAST) -> bool {
    f.function_name@ == "main"@
}

/// The functions other than `main`, in order.
pub open spec fn non_main(fs: Seq<FunctionAST>) -> Seq<FunctionAST>
    decreases fs.len(),
{
    if fs.len() == 0 {
        Seq::empty()
    } else if is_main(fs.last()) {
        non_main(fs.drop_last())
    } else {
        non_main(fs.drop_last()).push(fs.last())
    }
}

/// The first function named `main`.
pub open spec fn find_main(fs: Seq<FunctionAST>) -> Option<FunctionAST>
    decreases fs.len(),
{
    if fs.len() == 0 {
        None
    } else if is_main(fs[0]) {
        Some(fs[0])
    } else {
        find_main(fs.drop_first())
    }
}

/// Splits the functions of a program into the global table (all but
/// `main`) and the first `main`.
pub fn process_global_functions(functions: Vec<FunctionAST>) -> (r: (Vec<FunctionAST>, Option<FunctionAST>))
    ensures
        r.0@ == non_main(functions@),
        r.1 == find_main(functions@),
{
    let ghost all = functions@;
    let n = functions.len();
    let mut rest = functions;
    let mut globals: Vec<FunctionAST> = Vec::new();
    let mut main: Option<FunctionAST> = None;
    let mut i: usize = 0;
    proof {
        assert(all.subrange(0, 0) =~= Seq::<FunctionAST>::empty());
        assert(all.subrange(0, n as int) =~= all);
    }
    while i < n
        invariant
            n == all.len(),
            i <= n,
            rest@ == all.subrange(i as int, n as int),
            globals@ == non_main(all.subrange(0, i as int)),
            match main {
                Some(m) => find_main(all) == Some(m),
                None => find_main(all) == find_main(all.subrange(i as int, n as int)),
            },
        decreases n - i,
    {
        let f = rest.remove(0);
        proof {
            assert(all.subrange(0, i + 1).drop_last() =~= all.subrange(0, i as int));
            assert(all.subrange(i as int, n as int).drop_first() =~= all.subrange(i + 1, n as int));
            assert(rest@ =~= all.subrange(i + 1, n as int));
        }
        if str_eq(&f.function_name, "main") {
            if main.is_none() {
                main = Some(f);
            }
        } else {
            globals.push(f);
        }
        i += 1;
    }
    (globals, main)
}

/// What one step of `main` does, from state `s` to state `t` with result `r`.
pub open spec fn step_post(s: MainSession, t: MainSession, r: Result<Action, EvalError>) -> bool {
    let g = s.globals.global_scope@;
    let unchanged = t.env == s.env && t.handles@ == s.handles@ && t.next == s.next;
    &&& t.globals == s.globals
    &&& t.statements@ == s.statements@
    &&& t.fuel == s.fuel
    &&& if s.next >= s.statements@.len() {
        r is Ok && r->Ok_0 is Finished && unchanged
    } else {
        match s.statements@[s.next as int] {
            StatementAST::Bind(lb) => if lookup(*s.env, lb.variable@) is Some || is_global(g, lb.variable@) {
                r == Err::<Action, EvalError>(EvalError::Shadowing(lb.variable)) && unchanged
            } else {
                match eval_expr(g, *s.env, *lb.expr, s.fuel as nat) {
                    Err(x) => r == Err::<Action, EvalError>(x) && unchanged,
                    Ok(v) => r is Ok && r->Ok_0 is Continue && *t.env == Env::Bind {
                        name: lb.variable,
                        value: v,
                        rest: s.env,
                    } && t.handles@ == s.handles@ && t.next == s.next + 1,
                }
            },
            StatementAST::Write(w) => match eval_expr(g, *s.env, *w.expr, s.fuel as nat) {
                Err(x) => r == Err::<Action, EvalError>(x) && unchanged,
                Ok(v) => match write_text(w.impure_procedure_name, v) {
                    Err(x) => r == Err::<Action, EvalError>(x) && unchanged,
                    Ok(text) => match find_handle(s.handles@, w.file_handler@) {
                        None => r == Err::<Action, EvalError>(EvalError::UnknownHandle(w.file_handler))
                            && unchanged,
                        Some(info) => if !writable(info) {
                            r == Err::<Action, EvalError>(EvalError::WrongMode(w.file_handler)) && unchanged
                        } else {
                            &&& r is Ok
                            &&& r->Ok_0 is Write
                            &&& r->Ok_0->Write_handle == w.file_handler
                            &&& r->Ok_0->Write_text@ == text
                            &&& t.env == s.env
                            &&& t.handles@ == s.handles@
                            &&& t.next == s.next + 1
                        },
                    },
                },
            },
            StatementAST::Read(rd) => if rd.impure_procedure_name@ != "readstr"@ {
                r == Err::<Action, EvalError>(EvalError::UnknownProcedure(rd.impure_procedure_name))
                    && unchanged
            } else {
                match find_handle(s.handles@, rd.file_handler@) {
                    None => r == Err::<Action, EvalError>(EvalError::UnknownHandle(rd.file_handler))
                        && unchanged,
                    Some(info) => if !readable(info) {
                        r == Err::<Action, EvalError>(EvalError::WrongMode(rd.file_handler)) && unchanged
                    } else {
                        r == Ok::<Action, EvalError>(Action::Read { handle: rd.file_handler }) && unchanged
                    },
                }
            },
            StatementAST::FileOpen(f) => match open_mode(f.impure_procedure_name@) {
                None => r == Err::<Action, EvalError>(EvalError::UnknownProcedure(f.impure_procedure_name))
                    && unchanged,
                Some(mode) => {
                    &&& r == Ok::<Action, EvalError>(
                        Action::Open { handle: f.file_handler, path: f.file_path, mode },
                    )
                    &&& t.env == s.env
                    &&& t.handles@ == s.handles@.push(Handle { name: f.file_handler, info: mode })
                    &&& t.next == s.next + 1
                },
            },
            StatementAST::Error => r == Err::<Action, EvalError>(EvalError::ErrorExpression) && unchanged,
        }
    }
}

/// What handing a line to the read statement that `s` waits at does.
pub open spec fn read_post(s: MainSession, t: MainSession, line: String, r: Result<(), EvalError>) -> bool {
    let g = s.globals.global_scope@;
    let unchanged = t.env == s.env && t.handles@ == s.handles@ && t.next == s.next;
    &&& t.globals == s.globals
    &&& t.statements@ == s.statements@
    &&& t.fuel == s.fuel
    &&& if s.next < s.statements@.len() && s.statements@[s.next as int] is Read {
        let rd = s.statements@[s.next as int]->Read_0;
        let var = rd.write_to_variable;
        let info = find_handle(s.handles@, rd.file_handler@);
        if rd.impure_procedure_name@ != "readstr"@ || info is None || !readable(info->0) {
            r == Err::<(), EvalError>(EvalError::NoPendingRead) && unchanged
        } else if lookup(*s.env, var@) is Some || is_global(g, var@) {
            r == Err::<(), EvalError>(EvalError::Shadowing(var)) && unchanged
        } else {
            let value = if info->0 == IroncamelFileInfo::Stdin {
                ExprAST::StringLiteral(string_of(strip_newline(line@)))
            } else {
                ExprAST::StringLiteral(line)
            };
            &&& r is Ok
            &&& *t.env == Env::Bind { name: var, value, rest: s.env }
            &&& t.handles@ == s.handles@
            &&& t.next == s.next + 1
        }
    } else {
        r == Err::<(), EvalError>(EvalError::NoPendingRead) && unchanged
    }
}

impl MainSession {
    /// Sets up the run of a program: the global table of every function but
    /// `main`, an empty scope, the handles `stdin` and `stdout`, and the
    /// budget each evaluation of an expression gets.
    pub fn new(program: ProgramAST, fuel: u64) -> (r: Result<MainSession, EvalError>)
        ensures
            match r {
                Ok(s) => {
                    &&& find_main(program.functions@) is Some
                    &&& s.globals.global_scope@ == non_main(program.functions@)
                    &&& s.statements@ == find_main(program.functions@)->0.statements@
                    &&& *s.env == Env::Empty
                    &&& s.next == 0
                    &&& s.fuel == fuel
                    &&& find_handle(s.handles@, "stdin"@) == Some(IroncamelFileInfo::Stdin)
                    &&& find_handle(s.handles@, "stdout"@) == Some(IroncamelFileInfo::Stdout)
                },
                Err(e) => find_main(program.functions@) is None && e == EvalError::MainNotFound,
            },
    {
        let (global_scope, main) = process_global_functions(program.functions);
        let main = match main {
            Some(m) => m,
            None => {
                return Err(EvalError::MainNotFound);
            },
        };
        let mut handles: Vec<Handle> = Vec::new();
        handles.push(Handle { name: String::from_str("stdin"), info: IroncamelFileInfo::Stdin });
        handles.push(Handle { name: String::from_str("stdout"), info: IroncamelFileInfo::Stdout });
        proof {
            reveal_strlit("stdin");
            reveal_strlit("stdout");
            assert(handles@.drop_last() =~= seq![handles@[0]]);
            assert("stdin"@ =~= seq!['s', 't', 'd', 'i', 'n']);
            assert("stdout"@ =~= seq!['s', 't', 'd', 'o', 'u', 't']);
            assert("stdin"@ != "stdout"@);
            assert(find_handle(seq![handles@[0]], "stdin"@) == Some(IroncamelFileInfo::Stdin));
            assert(find_handle(handles@, "stdin"@) == Some(IroncamelFileInfo::Stdin));
        }
        Ok(
            MainSession {
                globals: GlobalState { global_scope },
                statements: main.statements,
                env: Rc::new(Env::Empty),
                handles,
                next: 0,
                fuel,
            },
        )
    }

    fn find_handle_exec(&self, name: &String) -> (r: Option<IroncamelFileInfo>)
        ensures
            r == find_handle(self.handles@, name@),
    {
        let ghost hs = self.handles@;
        let mut i: usize = self.handles.len();
        assert(hs.subrange(0, i as int) =~= hs);
        while i > 0
            invariant
                i <= hs.len(),
                hs == self.handles@,
                find_handle(hs, name@) == find_handle(hs.subrange(0, i as int), name@),
            decreases i,
        {
            proof {
                assert(hs.subrange(0, i as int).drop_last() =~= hs.subrange(0, i - 1));
            }
            if self.handles[i - 1].name == *name {
                return Some(self.handles[i - 1].info);
            }
            i -= 1;
        }
        None
    }

    /// Runs the next statement of `main` as far as it can without the
    /// world: a `let` is evaluated and bound; a write is evaluated and
    /// formatted; a read or an open is checked; what is left to do outside
    /// comes back as an action.
    pub fn step(&mut self) -> (r: Result<Action, EvalError>)
        ensures
            step_post(*old(self), *final(self), r),
    {
        if self.next >= self.statements.len() {
            return Ok(Action::Finished);
        }
        let i = self.next;
        match &self.statements[i] {
            StatementAST::Bind(lb) => {
                if lookup_local_variable(&*self.env, &lb.variable).is_some()
                    || self.globals.has_identifier(&lb.variable) {
                    return Err(EvalError::Shadowing(lb.variable.clone()));
                }
                match eval(&self.globals, &self.env, &lb.expr, self.fuel) {
                    Ok(v) => {
                        let name = lb.variable.clone();
                        let rest = Rc::clone(&self.env);
                        self.env = Rc::new(Env::Bind { name, value: v, rest });
                        self.next = i + 1;
                        Ok(Action::Continue)
                    },
                    Err(x) => Err(x),
                }
            },
            StatementAST::Write(w) => {
                let v = match eval(&self.globals, &self.env, &w.expr, self.fuel) {
                    Ok(v) => v,
                    Err(x) => {
                        return Err(x);
                    },
                };
                let text = match perform_write(&w.impure_procedure_name, &v) {
                    Ok(t) => t,
                    Err(x) => {
                        return Err(x);
                    },
                };
                match self.find_handle_exec(&w.file_handler) {
                    None => Err(EvalError::UnknownHandle(w.file_handler.clone())),
                    Some(info) => {
                        if !(info == IroncamelFileInfo::Write || info == IroncamelFileInfo::Stdout) {
                            return Err(EvalError::WrongMode(w.file_handler.clone()));
                        }
                        let handle = w.file_handler.clone();
                        self.next = i + 1;
                        Ok(Action::Write { handle, text })
                    },
                }
            },
            StatementAST::Read(rd) => {
                if !str_eq(&rd.impure_procedure_name, "readstr") {
                    return Err(EvalError::UnknownProcedure(rd.impure_procedure_name.clone()));
                }
                match self.find_handle_exec(&rd.file_handler) {
                    None => Err(EvalError::UnknownHandle(rd.file_handler.clone())),
                    Some(info) => {
                        if !(info == IroncamelFileInfo::Read || info == IroncamelFileInfo::Stdin) {
                            return Err(EvalError::WrongMode(rd.file_handler.clone()));
                        }
                        Ok(Action::Read { handle: rd.file_handler.clone() })
                    },
                }
            },
            StatementAST::FileOpen(f) => {
                let mode = if str_eq(&f.impure_procedure_name, "fopen_read") {
                    IroncamelFileInfo::Read
                } else if str_eq(&f.impure_procedure_name, "fopen_write") {
                    IroncamelFileInfo::Write
                } else {
                    return Err(EvalError::UnknownProcedure(f.impure_procedure_name.clone()));
                };
                let handle = f.file_handler.clone();
                let path = f.file_path.clone();
                self.handles.push(Handle { name: f.file_handler.clone(), info: mode });
                self.next = i + 1;
                Ok(Action::Open { handle, path, mode })
            },
            StatementAST::Error => Err(EvalError::ErrorExpression),
        }
    }

    /// Hands the line read for the read statement `main` waits at to the
    /// variable it names; a line from standard input loses its trailing
    /// newline, a line from a file is kept as it was read.
    pub fn complete_read(&mut self, line: String) -> (r: Result<(), EvalError>)
        ensures
            read_post(*old(self), *final(self), line, r),
    {
        if self.next >= self.statements.len() {
            return Err(EvalError::NoPendingRead);
        }
        let i = self.next;
        let (var, info) = match &self.statements[i] {
            StatementAST::Read(rd) => {
                if !str_eq(&rd.impure_procedure_name, "readstr") {
                    return Err(EvalError::NoPendingRead);
                }
                match self.find_handle_exec(&rd.file_handler) {
                    Some(info) => {
                        if !(info == IroncamelFileInfo::Read || info == IroncamelFileInfo::Stdin) {
                            return Err(EvalError::NoPendingRead);
                        }
                        if lookup_local_variable(&*self.env, &rd.write_to_variable).is_some()
                            || self.globals.has_identifier(&rd.write_to_variable) {
                            return Err(EvalError::Shadowing(rd.write_to_variable.clone()));
                        }
                        (rd.write_to_variable.clone(), info)
                    },
                    None => {
                        return Err(EvalError::NoPendingRead);
                    },
                }
            },
            _ => {
                return Err(EvalError::NoPendingRead);
            },
        };
        let value = if info == IroncamelFileInfo::Stdin {
            let mut chars = chars_of(line.as_str());
            if chars.len() > 0 && chars[chars.len() - 1] == '\n' {
                chars.pop();
            }
            proof {
                assert(chars@ =~= strip_newline(line@));
            }
            ExprAST::StringLiteral(string_from_chars(&chars))
        } else {
            ExprAST::StringLiteral(line)
        };
        let rest = Rc::clone(&self.env);
        self.env = Rc::new(Env::Bind { name: var, value, rest });
        self.next = i + 1;
        Ok(())
    }
}

impl CallableObject {
    /// A copy of this callable, equal to it; a closure's parts are shared.
    pub fn duplicate(&self) -> (r: CallableObject)
        ensures
            r == *self,
    {
        match self {
            CallableObject::GlobalFunction(n) => CallableObject::GlobalFunction(n.clone()),
            CallableObject::BuiltinFunction(n) => CallableObject::BuiltinFunction(n.clone()),
            CallableObject::Closure(c, e) => CallableObject::Closure(Rc::clone(c), Rc::clone(e)),
        }
    }
}

} // verus!
