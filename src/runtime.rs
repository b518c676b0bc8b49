use vstd::prelude::*;
use vstd::string::*;

use crate::errors::{runtime_failure, unknown_loc, Failure, MakerError, MakerErrorType};
use crate::nodes::{self, Ast, Expression, Loc};
use crate::scope::{missing_message, taken_message, Scope};
use crate::values::{self, lookup, truthy, type_name_of, values_equal, Boolean, Null, RuntimeValue, Val};

verus! {

/// What the interpreter asks of the host.
pub enum Request {
    /// Call capability `function` with `args`.
    Invoke { function: u64, args: Seq<Val> },
    /// Wait for the operation `pending` to finish.
    Resolve { pending: u64 },
}

/// What the host answered.
pub type Reply = Result<Val, Failure>;

/// The outcome of evaluating a node: its result, the bindings after it, and the
/// requests made to the host on the way, in order.
pub struct Outcome {
    pub result: Result<Val, Failure>,
    pub vars: Seq<(Seq<char>, Val)>,
    pub requests: Seq<Request>,
}

/// The outcome of evaluating a list of arguments.
pub struct ListOutcome {
    pub result: Result<Seq<Val>, Failure>,
    pub vars: Seq<(Seq<char>, Val)>,
    pub requests: Seq<Request>,
}

/// An outcome reached without asking the host anything.
pub open spec fn done(vars: Seq<(Seq<char>, Val)>, result: Result<Val, Failure>) -> Outcome {
    Outcome { result, vars, requests: Seq::empty() }
}

/// `o`, after the requests `p` made before it.
pub open spec fn prefixed(p: Seq<Request>, o: Outcome) -> Outcome {
    Outcome { result: o.result, vars: o.vars, requests: p + o.requests }
}

pub open spec fn list_prefixed(p: Seq<Request>, o: ListOutcome) -> ListOutcome {
    ListOutcome { result: o.result, vars: o.vars, requests: p + o.requests }
}

/// `v.right`, where `left_loc` is the location of the indexed expression.
pub open spec fn index(v: Val, right: Ast, left_loc: Loc) -> Result<Val, Failure> {
    match v {
        Val::Object(items) => match right {
            Ast::Identifier { name, loc } => match lookup(items, name) {
                Some(x) => Ok(x),
                None => Err(runtime_failure("Object does not have key "@ + name, loc)),
            },
            _ => Err(runtime_failure("Can only index an object with an identifier!"@, right.loc())),
        },
        _ => Err(runtime_failure("Cannot index a "@ + type_name_of(v), left_loc)),
    }
}

/// A call of the value `f` on `args`, after the requests `before`; `rest` are the
/// host's replies that follow them.
pub open spec fn call_value(
    f: Val,
    args: Seq<Val>,
    loc: Loc,
    vars: Seq<(Seq<char>, Val)>,
    before: Seq<Request>,
    rest: Seq<Reply>,
) -> Outcome {
    match f {
        Val::Native(id) => match rest[0] {
            Ok(Val::Pending(h)) => Outcome {
                result: rest[1],
                vars,
                requests: before + seq![
                    Request::Invoke { function: id, args },
                    Request::Resolve { pending: h },
                ],
            },
            _ => Outcome {
                result: rest[0],
                vars,
                requests: before.push(Request::Invoke { function: id, args }),
            },
        },
        _ => Outcome {
            result: Err(runtime_failure("Cannot call a "@ + type_name_of(f), loc)),
            vars,
            requests: before,
        },
    }
}

/// Evaluation of `e` with bindings `vars`, where the host answers its requests, in
/// order, with `replies`.
pub open spec fn eval(vars: Seq<(Seq<char>, Val)>, e: Ast, replies: Seq<Reply>) -> Outcome
    decreases e, 0int,
{
    match e {
        Ast::Identifier { name, .. } => done(
            vars,
            match lookup(vars, name) {
                Some(v) => Ok(v),
                None => Err(runtime_failure(missing_message(name), unknown_loc())),
            },
        ),
        Ast::Number { digits, .. } => done(vars, Ok(Val::Num(digits))),
        Ast::Str { text, .. } => done(vars, Ok(Val::Str(text))),
        Ast::Block { nodes, .. } => eval_block(vars, nodes, 0, replies, Val::Null),
        Ast::Declaration { name, value, .. } => {
            let o = eval(vars, *value, replies);
            match o.result {
                Err(_) => o,
                Ok(v) => match lookup(o.vars, name) {
                    Some(_) => Outcome {
                        result: Err(runtime_failure(taken_message(name), unknown_loc())),
                        vars: o.vars,
                        requests: o.requests,
                    },
                    None => Outcome {
                        result: Ok(Val::Null),
                        vars: o.vars.push((name, v)),
                        requests: o.requests,
                    },
                },
            }
        },
        Ast::Member { left, right, .. } => {
            let o = eval(vars, *left, replies);
            match o.result {
                Err(_) => o,
                Ok(v) => Outcome { result: index(v, *right, left.loc()), vars: o.vars, requests: o.requests },
            }
        },
        Ast::Call { callee, args, loc } => {
            let oc = eval(vars, *callee, replies);
            match oc.result {
                Err(_) => oc,
                Ok(f) => {
                    let oa = eval_args(
                        oc.vars,
                        args,
                        0,
                        replies.skip(oc.requests.len() as int),
                        Seq::empty(),
                    );
                    let before = oc.requests + oa.requests;
                    match oa.result {
                        Err(e) => Outcome { result: Err(e), vars: oa.vars, requests: before },
                        Ok(vals) => call_value(f, vals, loc, oa.vars, before, replies.skip(before.len() as int)),
                    }
                },
            }
        },
        Ast::Equals { left, right, .. } => {
            let ol = eval(vars, *left, replies);
            match ol.result {
                Err(_) => ol,
                Ok(l) => {
                    let or = eval(ol.vars, *right, replies.skip(ol.requests.len() as int));
                    prefixed(
                        ol.requests,
                        match or.result {
                            Err(_) => or,
                            Ok(r) => Outcome {
                                result: Ok(Val::Bool(values_equal(l, r))),
                                vars: or.vars,
                                requests: or.requests,
                            },
                        },
                    )
                },
            }
        },
        Ast::If { test, success, alternate, .. } => {
            let ot = eval(vars, *test, replies);
            match ot.result {
                Err(_) => ot,
                Ok(t) => {
                    let rest = replies.skip(ot.requests.len() as int);
                    prefixed(
                        ot.requests,
                        if truthy(t) {
                            eval_block(ot.vars, success, 0, rest, Val::Null)
                        } else {
                            match alternate {
                                Some(a) => eval(ot.vars, *a, rest),
                                None => done(ot.vars, Ok(Val::Null)),
                            }
                        },
                    )
                },
            }
        },
    }
}

/// Evaluation of the statements `nodes` from index `i`, where `last` is the value
/// of the statement before.
pub open spec fn eval_block(
    vars: Seq<(Seq<char>, Val)>,
    nodes: Seq<Ast>,
    i: int,
    replies: Seq<Reply>,
    last: Val,
) -> Outcome
    decreases nodes, nodes.len() - i,
{
    if i < 0 || i >= nodes.len() {
        done(vars, Ok(last))
    } else {
        let o = eval(vars, nodes[i], replies);
        match o.result {
            Err(_) => o,
            Ok(v) => prefixed(
                o.requests,
                eval_block(o.vars, nodes, i + 1, replies.skip(o.requests.len() as int), v),
            ),
        }
    }
}

/// Evaluation of the arguments `args` from index `i`, after the values `vals`.
pub open spec fn eval_args(
    vars: Seq<(Seq<char>, Val)>,
    args: Seq<Ast>,
    i: int,
    replies: Seq<Reply>,
    vals: Seq<Val>,
) -> ListOutcome
    decreases args, args.len() - i,
{
    if i < 0 || i >= args.len() {
        ListOutcome { result: Ok(vals), vars, requests: Seq::empty() }
    } else {
        let o = eval(vars, args[i], replies);
        match o.result {
            Err(f) => ListOutcome { result: Err(f), vars: o.vars, requests: o.requests },
            Ok(v) => list_prefixed(
                o.requests,
                eval_args(o.vars, args, i + 1, replies.skip(o.requests.len() as int), vals.push(v)),
            ),
        }
    }
}

proof fn lemma_skip_append(r: Seq<Reply>, s: Seq<Reply>, n: int)
    requires
        0 <= n <= r.len(),
    ensures
        (r + s).skip(n) == r.skip(n) + s,
{
    assert((r + s).skip(n) =~= r.skip(n) + s);
}

/// Evaluation reads no reply beyond those it asked for.
proof fn lemma_eval_frame(vars: Seq<(Seq<char>, Val)>, e: Ast, r: Seq<Reply>, s: Seq<Reply>)
    requires
        eval(vars, e, r).requests.len() <= r.len(),
    ensures
        eval(vars, e, r + s) == eval(vars, e, r),
    decreases e, 0int,
{
    match e {
        Ast::Block { nodes, .. } => {
            lemma_block_frame(vars, nodes, 0, r, s, Val::Null);
        },
        Ast::Declaration { value, .. } => {
            lemma_eval_frame(vars, *value, r, s);
        },
        Ast::Member { left, .. } => {
            lemma_eval_frame(vars, *left, r, s);
        },
        Ast::Call { callee, args, loc } => {
            let oc = eval(vars, *callee, r);
            lemma_eval_frame(vars, *callee, r, s);
            if let Ok(f) = oc.result {
                let n1 = oc.requests.len() as int;
                let oa = eval_args(oc.vars, args, 0, r.skip(n1), Seq::empty());
                assert(oa.requests.len() <= r.skip(n1).len());
                lemma_skip_append(r, s, n1);
                lemma_args_frame(oc.vars, args, 0, r.skip(n1), s, Seq::empty());
                if let Ok(vals) = oa.result {
                    let before = oc.requests + oa.requests;
                    let b = before.len() as int;
                    assert(b <= r.len());
                    lemma_skip_append(r, s, b);
                    if f is Native {
                        assert(r.skip(b)[0] == (r + s).skip(b)[0]);
                        if r.skip(b)[0] matches Ok(Val::Pending(_)) {
                            assert(r.skip(b)[1] == (r + s).skip(b)[1]);
                        }
                    }
                }
            }
        },
        Ast::Equals { left, right, .. } => {
            let ol = eval(vars, *left, r);
            lemma_eval_frame(vars, *left, r, s);
            if let Ok(_) = ol.result {
                let n1 = ol.requests.len() as int;
                lemma_skip_append(r, s, n1);
                lemma_eval_frame(ol.vars, *right, r.skip(n1), s);
            }
        },
        Ast::If { test, success, alternate, .. } => {
            let ot = eval(vars, *test, r);
            lemma_eval_frame(vars, *test, r, s);
            if let Ok(t) = ot.result {
                let n1 = ot.requests.len() as int;
                lemma_skip_append(r, s, n1);
                if truthy(t) {
                    lemma_block_frame(ot.vars, success, 0, r.skip(n1), s, Val::Null);
                } else if let Some(a) = alternate {
                    lemma_eval_frame(ot.vars, *a, r.skip(n1), s);
                }
            }
        },
        _ => {},
    }
}

proof fn lemma_block_frame(
    vars: Seq<(Seq<char>, Val)>,
    nodes: Seq<Ast>,
    i: int,
    r: Seq<Reply>,
    s: Seq<Reply>,
    last: Val,
)
    requires
        eval_block(vars, nodes, i, r, last).requests.len() <= r.len(),
    ensures
        eval_block(vars, nodes, i, r + s, last) == eval_block(vars, nodes, i, r, last),
    decreases nodes, nodes.len() - i,
{
    if 0 <= i < nodes.len() {
        let o = eval(vars, nodes[i], r);
        lemma_eval_frame(vars, nodes[i], r, s);
        if let Ok(v) = o.result {
            let n = o.requests.len() as int;
            lemma_skip_append(r, s, n);
            lemma_block_frame(o.vars, nodes, i + 1, r.skip(n), s, v);
        }
    }
}

proof fn lemma_args_frame(
    vars: Seq<(Seq<char>, Val)>,
    args: Seq<Ast>,
    i: int,
    r: Seq<Reply>,
    s: Seq<Reply>,
    vals: Seq<Val>,
)
    requires
        eval_args(vars, args, i, r, vals).requests.len() <= r.len(),
    ensures
        eval_args(vars, args, i, r + s, vals) == eval_args(vars, args, i, r, vals),
    decreases args, args.len() - i,
{
    if 0 <= i < args.len() {
        let o = eval(vars, args[i], r);
        lemma_eval_frame(vars, args[i], r, s);
        if let Ok(v) = o.result {
            let n = o.requests.len() as int;
            lemma_skip_append(r, s, n);
            lemma_args_frame(o.vars, args, i + 1, r.skip(n), s, vals.push(v));
        }
    }
}

pub open spec fn call_ast(c: &nodes::Call) -> Ast {
    Ast::Call { callee: Box::new(c.callee.model()), args: nodes::models(c.args@), loc: c.location@ }
}

pub open spec fn logical_ast(l: &nodes::Logical) -> Ast {
    Ast::Equals { left: Box::new(l.left.model()), right: Box::new(l.right.model()), loc: l.location@ }
}

pub open spec fn if_ast(b: &nodes::IfBlock) -> Ast {
    Ast::If {
        test: Box::new(b.test.model()),
        success: nodes::models(b.success.nodes@),
        success_loc: b.success.location@,
        alternate: match &b.alternate {
            Some(a) => Some(Box::new(a.model())),
            None => None,
        },
        loc: b.location@,
    }
}

/// The bindings after evaluating `e`.
pub open spec fn vars1_of(vars: Seq<(Seq<char>, Val)>, e: Ast, replies: Seq<Reply>) -> Seq<(Seq<char>, Val)> {
    eval(vars, e, replies).vars
}

/// The value of a literal node.
pub open spec fn literal_value(e: Ast) -> Option<Val> {
    match e {
        Ast::Number { digits, .. } => Some(Val::Num(digits)),
        Ast::Str { text, .. } => Some(Val::Str(text)),
        _ => None,
    }
}

proof fn lemma_lookup_push(vars: Seq<(Seq<char>, Val)>, name: Seq<char>, v: Val)
    ensures
        lookup(vars, name) is Some ==> lookup(vars.push((name, v)), name) == lookup(vars, name),
        lookup(vars, name) is None ==> lookup(vars.push((name, v)), name) == Some(v),
    decreases vars.len(),
{
    if vars.len() > 0 {
        assert(vars.push((name, v)).drop_first() =~= vars.drop_first().push((name, v)));
        lemma_lookup_push(vars.drop_first(), name, v);
    } else {
        assert(vars.push((name, v))[0] == (name, v));
    }
}

/// Declaring one name twice in a scope fails with a runtime error that names it,
/// and the binding made first stays as it was.
pub proof fn redeclaration_fails(
    vars: Seq<(Seq<char>, Val)>,
    name: Seq<char>,
    first: Ast,
    second: Ast,
    locs: Seq<Loc>,
    replies: Seq<Reply>,
)
    requires
        literal_value(first) is Some,
        literal_value(second) is Some,
        locs.len() == 5,
    ensures
        ({
            let program = Ast::Block {
                nodes: seq![
                    Ast::Declaration { name, name_loc: locs[0], value: Box::new(first), loc: locs[1] },
                    Ast::Declaration { name, name_loc: locs[2], value: Box::new(second), loc: locs[3] },
                ],
                loc: locs[4],
            };
            let o = eval(vars, program, replies);
            &&& o.result == Err::<Val, Failure>(runtime_failure(taken_message(name), unknown_loc()))
            &&& lookup(o.vars, name) == match lookup(vars, name) {
                Some(v) => Some(v),
                None => literal_value(first),
            }
        }),
{
    let d1 = Ast::Declaration { name, name_loc: locs[0], value: Box::new(first), loc: locs[1] };
    let d2 = Ast::Declaration { name, name_loc: locs[2], value: Box::new(second), loc: locs[3] };
    let nodes = seq![d1, d2];
    let v1 = literal_value(first)->Some_0;
    lemma_lookup_push(vars, name, v1);
    assert(eval(vars, first, replies) == done(vars, Ok(v1)));
    let o1 = eval(vars, d1, replies);
    assert(nodes[0] == d1);
    assert(nodes[1] == d2);
    let program = Ast::Block { nodes, loc: locs[4] };
    assert(eval(vars, program, replies) == eval_block(vars, nodes, 0, replies, Val::Null));
    if lookup(vars, name) is None {
        assert(o1.vars == vars.push((name, v1)));
        assert(o1.requests.len() == 0);
        assert(replies.skip(0) =~= replies);
        let v2 = literal_value(second)->Some_0;
        assert(eval(o1.vars, second, replies) == done(o1.vars, Ok(v2)));
        let o2 = eval(o1.vars, d2, replies);
        assert(o2.result == Err::<Val, Failure>(runtime_failure(taken_message(name), unknown_loc())));
        assert(eval_block(o1.vars, nodes, 1, replies, Val::Null) == o2);
    } else {
        assert(eval_block(vars, nodes, 0, replies, Val::Null) == o1);
    }
}

proof fn lemma_prefix_trans<A>(a: Seq<A>, b: Seq<A>, c: Seq<A>)
    requires
        is_prefix(a, b),
        is_prefix(b, c),
    ensures
        is_prefix(a, c),
{
    assert(c.subrange(0, a.len() as int) =~= c.subrange(0, b.len() as int).subrange(0, a.len() as int));
}

proof fn lemma_eval_keeps(vars: Seq<(Seq<char>, Val)>, e: Ast, r: Seq<Reply>)
    ensures
        is_prefix(vars, eval(vars, e, r).vars),
    decreases e, 0int,
{
    lemma_prefix_refl(vars);
    match e {
        Ast::Block { nodes, .. } => {
            lemma_block_keeps(vars, nodes, 0, r, Val::Null);
        },
        Ast::Declaration { name, value, .. } => {
            let o = eval(vars, *value, r);
            lemma_eval_keeps(vars, *value, r);
            if let Ok(v) = o.result {
                lemma_prefix_push(o.vars, (name, v));
                lemma_prefix_trans(vars, o.vars, o.vars.push((name, v)));
            }
        },
        Ast::Member { left, .. } => {
            lemma_eval_keeps(vars, *left, r);
        },
        Ast::Call { callee, args, .. } => {
            let oc = eval(vars, *callee, r);
            lemma_eval_keeps(vars, *callee, r);
            if oc.result is Ok {
                let rest = r.skip(oc.requests.len() as int);
                lemma_args_keep(oc.vars, args, 0, rest, Seq::empty());
                lemma_prefix_trans(vars, oc.vars, eval_args(oc.vars, args, 0, rest, Seq::empty()).vars);
            }
        },
        Ast::Equals { left, right, .. } => {
            let ol = eval(vars, *left, r);
            lemma_eval_keeps(vars, *left, r);
            if ol.result is Ok {
                let rest = r.skip(ol.requests.len() as int);
                lemma_eval_keeps(ol.vars, *right, rest);
                lemma_prefix_trans(vars, ol.vars, eval(ol.vars, *right, rest).vars);
            }
        },
        Ast::If { test, success, alternate, .. } => {
            let ot = eval(vars, *test, r);
            lemma_eval_keeps(vars, *test, r);
            if let Ok(t) = ot.result {
                let rest = r.skip(ot.requests.len() as int);
                lemma_prefix_refl(ot.vars);
                if truthy(t) {
                    lemma_block_keeps(ot.vars, success, 0, rest, Val::Null);
                    lemma_prefix_trans(vars, ot.vars, eval_block(ot.vars, success, 0, rest, Val::Null).vars);
                } else if let Some(a) = alternate {
                    lemma_eval_keeps(ot.vars, *a, rest);
                    lemma_prefix_trans(vars, ot.vars, eval(ot.vars, *a, rest).vars);
                }
            }
        },
        _ => {},
    }
}

proof fn lemma_block_keeps(vars: Seq<(Seq<char>, Val)>, nodes: Seq<Ast>, i: int, r: Seq<Reply>, last: Val)
    ensures
        is_prefix(vars, eval_block(vars, nodes, i, r, last).vars),
    decreases nodes, nodes.len() - i,
{
    lemma_prefix_refl(vars);
    if 0 <= i < nodes.len() {
        let o = eval(vars, nodes[i], r);
        lemma_eval_keeps(vars, nodes[i], r);
        if let Ok(v) = o.result {
            let rest = r.skip(o.requests.len() as int);
            lemma_block_keeps(o.vars, nodes, i + 1, rest, v);
            lemma_prefix_trans(vars, o.vars, eval_block(o.vars, nodes, i + 1, rest, v).vars);
        }
    }
}

proof fn lemma_args_keep(vars: Seq<(Seq<char>, Val)>, args: Seq<Ast>, i: int, r: Seq<Reply>, vals: Seq<Val>)
    ensures
        is_prefix(vars, eval_args(vars, args, i, r, vals).vars),
    decreases args, args.len() - i,
{
    lemma_prefix_refl(vars);
    if 0 <= i < args.len() {
        let o = eval(vars, args[i], r);
        lemma_eval_keeps(vars, args[i], r);
        if let Ok(v) = o.result {
            let rest = r.skip(o.requests.len() as int);
            lemma_args_keep(o.vars, args, i + 1, rest, vals.push(v));
            lemma_prefix_trans(vars, o.vars, eval_args(o.vars, args, i + 1, rest, vals.push(v)).vars);
        }
    }
}

/// Evaluation never reassigns: every binding there was before is still there,
/// unchanged and in its place; evaluation only adds bindings after them.
pub proof fn bindings_are_never_changed(vars: Seq<(Seq<char>, Val)>, e: Ast, replies: Seq<Reply>)
    ensures
        is_prefix(vars, eval(vars, e, replies).vars),
{
    lemma_eval_keeps(vars, e, replies);
}

/// Calling a capability of an object, `obj.method(text)`, asks the host to invoke
/// it with the one argument `text`. When the host answers with a pending operation,
/// the call then asks for that operation to be resolved, and completes with exactly
/// what the resolution yields, failure included; otherwise it completes with the
/// host's answer. The bindings do not change.
pub proof fn capability_call_awaits_pending(
    vars: Seq<(Seq<char>, Val)>,
    obj: Seq<char>,
    method: Seq<char>,
    items: Seq<(Seq<char>, Val)>,
    id: u64,
    text: Seq<char>,
    locs: Seq<Loc>,
    replies: Seq<Reply>,
)
    requires
        lookup(vars, obj) == Some(Val::Object(items)),
        lookup(items, method) == Some(Val::Native(id)),
        locs.len() == 5,
    ensures
        ({
            let callee = Ast::Member {
                left: Box::new(Ast::Identifier { name: obj, loc: locs[0] }),
                right: Box::new(Ast::Identifier { name: method, loc: locs[1] }),
                loc: locs[2],
            };
            let e = Ast::Call {
                callee: Box::new(callee),
                args: seq![Ast::Str { text, loc: locs[3] }],
                loc: locs[4],
            };
            let o = eval(vars, e, replies);
            let invoke = Request::Invoke { function: id, args: seq![Val::Str(text)] };
            &&& o.vars == vars
            &&& match replies[0] {
                Ok(Val::Pending(h)) => o.requests == seq![invoke, Request::Resolve { pending: h }]
                    && o.result == replies[1],
                _ => o.requests == seq![invoke] && o.result == replies[0],
            }
        }),
{
    let left = Ast::Identifier { name: obj, loc: locs[0] };
    let callee = Ast::Member {
        left: Box::new(left),
        right: Box::new(Ast::Identifier { name: method, loc: locs[1] }),
        loc: locs[2],
    };
    let arg = Ast::Str { text, loc: locs[3] };
    let args = seq![arg];
    assert(eval(vars, left, replies) == done(vars, Ok(Val::Object(items))));
    let oc = eval(vars, callee, replies);
    assert(oc == done(vars, Ok(Val::Native(id))));
    assert(replies.skip(0) =~= replies);
    assert(args[0] == arg);
    assert(eval(vars, arg, replies) == done(vars, Ok(Val::Str(text))));
    let oa = eval_args(vars, args, 0, replies, Seq::empty());
    assert(eval_args(vars, args, 1, replies, seq![Val::Str(text)]).requests == Seq::<Request>::empty());
    assert(Seq::<Val>::empty().push(Val::Str(text)) =~= seq![Val::Str(text)]);
    assert(oa.result == Ok::<Seq<Val>, Failure>(seq![Val::Str(text)]));
    assert(oa.requests =~= Seq::<Request>::empty());
    assert(oc.requests + oa.requests =~= Seq::<Request>::empty());
    let invoke = Request::Invoke { function: id, args: seq![Val::Str(text)] };
    assert(Seq::<Request>::empty().push(invoke) =~= seq![invoke]);
    if let Ok(Val::Pending(h)) = replies[0] {
        assert(Seq::<Request>::empty() + seq![invoke, Request::Resolve { pending: h }] =~= seq![
            invoke,
            Request::Resolve { pending: h },
        ]);
    }
}

/// Reading a name that no declaration bound fails with a runtime error that names
/// it, and asks the host nothing.
pub proof fn undeclared_reference_fails(
    vars: Seq<(Seq<char>, Val)>,
    name: Seq<char>,
    loc: Loc,
    replies: Seq<Reply>,
)
    requires
        lookup(vars, name) is None,
    ensures
        eval(vars, Ast::Identifier { name, loc }, replies) == done(
            vars,
            Err(runtime_failure(missing_message(name), unknown_loc())),
        ),
{
}

/// Whether `a` is a prefix of `b`.
pub open spec fn is_prefix<A>(a: Seq<A>, b: Seq<A>) -> bool {
    a.len() <= b.len() && b.subrange(0, a.len() as int) == a
}

proof fn lemma_log_split<A>(l0: Seq<A>, l1: Seq<A>, l2: Seq<A>)
    requires
        is_prefix(l0, l1),
        is_prefix(l1, l2),
    ensures
        is_prefix(l0, l2),
        l2.skip(l0.len() as int) == l1.skip(l0.len() as int) + l2.skip(l1.len() as int),
        l2.skip(l0.len() as int).skip(l1.len() - l0.len()) == l2.skip(l1.len() as int),
{
    assert(l2.subrange(0, l0.len() as int) =~= l2.subrange(0, l1.len() as int).subrange(0, l0.len() as int));
    assert(l2.skip(l0.len() as int) =~= l1.skip(l0.len() as int) + l2.skip(l1.len() as int));
    assert(l2.skip(l0.len() as int).skip(l1.len() - l0.len()) =~= l2.skip(l1.len() as int));
}

proof fn lemma_prefix_refl<A>(l: Seq<A>)
    ensures
        is_prefix(l, l),
        l.skip(l.len() as int) == Seq::<A>::empty(),
{
    assert(l.subrange(0, l.len() as int) =~= l);
    assert(l.skip(l.len() as int) =~= Seq::<A>::empty());
}

proof fn lemma_prefix_push<A>(l: Seq<A>, x: A)
    ensures
        is_prefix(l, l.push(x)),
{
    assert(l.push(x).subrange(0, l.len() as int) =~= l);
}

/// The reply a host call gave, as a mathematical value.
pub open spec fn reply_of(r: Result<RuntimeValue, MakerError>) -> Reply {
    match r {
        Ok(v) => Ok(v.model()),
        Err(e) => Err(e.failure()),
    }
}

/// Whether `r` is the result `x`.
pub open spec fn result_is(r: Result<RuntimeValue, MakerError>, x: Result<Val, Failure>) -> bool {
    match (r, x) {
        (Ok(v), Ok(m)) => v.model() == m,
        (Err(e), Err(f)) => e.failure() == f,
        _ => false,
    }
}

/// The models of a sequence of values.
pub open spec fn value_models(v: Seq<RuntimeValue>) -> Seq<Val> {
    v.map_values(|x: RuntimeValue| x.model())
}

/// The capabilities a host offers to scripts.
pub trait NativeHost {
    /// Calls capability `function` on `args`. A capability that works asynchronously
    /// hands back a `Future` value, which the interpreter then resolves.
    fn invoke(&mut self, function: u64, args: Vec<RuntimeValue>) -> Result<RuntimeValue, MakerError>;

    /// Waits for the operation `pending` and hands back what it yielded.
    fn resolve(&mut self, pending: u64) -> Result<RuntimeValue, MakerError>;
}

/// A tree-walking interpreter over one scope. `requests` and `replies` record, in
/// order, what was asked of the host and what it answered.
pub struct Interpreter {
    pub scope: Scope,
    pub requests: Ghost<Seq<Request>>,
    pub replies: Ghost<Seq<Reply>>,
}

impl Interpreter {
    pub open spec fn wf(&self) -> bool {
        &&& self.requests@.len() == self.replies@.len()
        &&& self.scope.wf()
    }

    /// Whether `self` came from `start` by further requests and replies.
    pub open spec fn extends(&self, start: &Interpreter) -> bool {
        &&& is_prefix(start.requests@, self.requests@)
        &&& is_prefix(start.replies@, self.replies@)
    }

    /// The replies received since `start`.
    pub open spec fn replies_since(&self, start: &Interpreter) -> Seq<Reply> {
        self.replies@.skip(start.replies@.len() as int)
    }

    /// Whether, from `start`, the state and result `r` are those of evaluating `e`.
    pub open spec fn evaluated(&self, start: &Interpreter, e: Ast, r: Result<RuntimeValue, MakerError>) -> bool {
        let o = eval(start.scope.bindings(), e, self.replies_since(start));
        &&& self.wf()
        &&& self.extends(start)
        &&& self.reached(start, o)
        &&& result_is(r, o.result)
    }

    /// Whether the state reached from `start` is the outcome `o`.
    pub open spec fn reached(&self, start: &Interpreter, o: Outcome) -> bool {
        &&& o.requests == self.requests@.skip(start.requests@.len() as int)
        &&& o.vars == self.scope.bindings()
    }

    /// An interpreter over `scope` that has asked the host nothing yet.
    pub fn new(scope: Scope) -> (r: Interpreter)
        requires
            scope.wf(),
        ensures
            r.scope.bindings() == scope.bindings(),
            r.requests@ == Seq::<Request>::empty(),
            r.replies@ == Seq::<Reply>::empty(),
            r.wf(),
    {
        Interpreter { scope, requests: Ghost(Seq::empty()), replies: Ghost(Seq::empty()) }
    }

    fn invoke<H: NativeHost>(&mut self, host: &mut H, function: u64, args: Vec<RuntimeValue>) -> (r: Result<RuntimeValue, MakerError>)
        requires
            old(self).wf(),
        ensures
            final(self).wf(),
            final(self).scope == old(self).scope,
            final(self).requests@ == old(self).requests@.push(
                Request::Invoke { function, args: value_models(args@) },
            ),
            final(self).replies@ == old(self).replies@.push(reply_of(r)),
    {
        let ghost request = Request::Invoke { function, args: value_models(args@) };
        let r = host.invoke(function, args);
        self.requests = Ghost(self.requests@.push(request));
        self.replies = Ghost(self.replies@.push(reply_of(r)));
        r
    }

    fn resolve<H: NativeHost>(&mut self, host: &mut H, pending: u64) -> (r: Result<RuntimeValue, MakerError>)
        requires
            old(self).wf(),
        ensures
            final(self).wf(),
            final(self).scope == old(self).scope,
            final(self).requests@ == old(self).requests@.push(Request::Resolve { pending }),
            final(self).replies@ == old(self).replies@.push(reply_of(r)),
    {
        let r = host.resolve(pending);
        self.requests = Ghost(self.requests@.push(Request::Resolve { pending }));
        self.replies = Ghost(self.replies@.push(reply_of(r)));
        r
    }

    /// Evaluates `expression`, asking `host` for each capability it calls. The
    /// result, the bindings after it and the requests made are those of `eval`, given
    /// the replies the host made.
    pub fn evaluate<H: NativeHost>(&mut self, host: &mut H, expression: &Expression) -> (r: Result<
        RuntimeValue,
        MakerError,
    >)
        requires
            old(self).wf(),
        ensures
            final(self).wf(),
            final(self).extends(old(self)),
            final(self).reached(
                old(self),
                eval(old(self).scope.bindings(), expression.model(), final(self).replies_since(old(self))),
            ),
            result_is(
                r,
                eval(old(self).scope.bindings(), expression.model(), final(self).replies_since(old(self))).result,
            ),
        decreases expression, 0int,
    {
        let ghost vars0 = self.scope.bindings();
        let ghost req0 = self.requests@;
        let ghost rep0 = self.replies@;
        proof {
            lemma_prefix_refl(req0);
            lemma_prefix_refl(rep0);
        }
        match expression {
            Expression::Identifier(ident) => {
                proof {
                    reveal_strlit("<unknown>");
                }
                self.scope.get(&ident.name)
            },
            Expression::Number(num) => Ok(values::Number::make(num.value.clone())),
            Expression::StringNode(text) => Ok(values::StringValue::make(text.value.clone())),
            Expression::Block(block) => {
                assert(expression.model()->Block_nodes =~= nodes::models(block.nodes@));
                let last = Null::make();
                self.evaluate_block(host, &block.nodes, 0, last)
            },
            Expression::VariableDeclaration(dec) => {
                let value = self.evaluate(host, &dec.value)?;
                proof {
                    reveal_strlit("<unknown>");
                }
                self.scope.declare(&dec.name.name, value)?;
                Ok(Null::make())
            },
            Expression::Member(member) => {
                let left = self.evaluate(host, &member.left)?;
                self.index(&left, member)
            },
            Expression::Logical(logical) => {
                assert(expression.model() == logical_ast(logical));
                self.evaluate_equals(host, logical)
            },
            Expression::IfBlock(block) => {
                assert(expression.model()->If_success =~= nodes::models(block.success.nodes@));
                assert(expression.model() == if_ast(block));
                self.evaluate_if(host, block)
            },
            Expression::Call(call) => {
                assert(expression.model()->Call_args =~= nodes::models(call.args@));
                assert(expression.model() == call_ast(call));
                self.evaluate_call(host, call)
            },
        }
    }

    fn evaluate_equals<H: NativeHost>(&mut self, host: &mut H, logical: &nodes::Logical) -> (r: Result<RuntimeValue, MakerError>)
        requires
            old(self).wf(),
        ensures
            final(self).evaluated(old(self), logical_ast(logical), r),
        decreases logical, 1int,
    {
        let ghost vars0 = self.scope.bindings();
        let ghost req0 = self.requests@;
        let ghost rep0 = self.replies@;
        proof {
            lemma_prefix_refl(req0);
            lemma_prefix_refl(rep0);
        }
        let left = self.evaluate(host, &logical.left)?;
        let ghost req1 = self.requests@;
        let ghost rep1 = self.replies@;
        let ghost vars1 = self.scope.bindings();
        let right = self.evaluate(host, &logical.right);
        proof {
            lemma_log_split(req0, req1, self.requests@);
            lemma_log_split(rep0, rep1, self.replies@);
            lemma_eval_frame(
                vars0,
                logical.left.model(),
                rep1.skip(rep0.len() as int),
                self.replies@.skip(rep1.len() as int),
            );
        }
        let right = right?;
        Ok(Boolean::make(values::equals(&left, &right)))
    }

    fn evaluate_if<H: NativeHost>(&mut self, host: &mut H, block: &nodes::IfBlock) -> (r: Result<RuntimeValue, MakerError>)
        requires
            old(self).wf(),
        ensures
            final(self).evaluated(old(self), if_ast(block), r),
        decreases block, 1int,
    {
        let ghost vars0 = self.scope.bindings();
        let ghost req0 = self.requests@;
        let ghost rep0 = self.replies@;
        proof {
            lemma_prefix_refl(req0);
            lemma_prefix_refl(rep0);
        }
        let test = self.evaluate(host, &block.test)?;
        let ghost req1 = self.requests@;
        let ghost rep1 = self.replies@;
        let r = if test.is_truthy() {
            let last = Null::make();
            self.evaluate_block(host, &block.success.nodes, 0, last)
        } else {
            match &block.alternate {
                Some(alternate) => self.evaluate(host, alternate),
                None => {
                    proof {
                        lemma_prefix_refl(req1);
                        lemma_prefix_refl(rep1);
                    }
                    Ok(Null::make())
                },
            }
        };
        proof {
            lemma_log_split(req0, req1, self.requests@);
            lemma_log_split(rep0, rep1, self.replies@);
            lemma_eval_frame(
                vars0,
                block.test.model(),
                rep1.skip(rep0.len() as int),
                self.replies@.skip(rep1.len() as int),
            );
        }
        r
    }

    fn evaluate_call<H: NativeHost>(&mut self, host: &mut H, call: &nodes::Call) -> (r: Result<RuntimeValue, MakerError>)
        requires
            old(self).wf(),
        ensures
            final(self).evaluated(old(self), call_ast(call), r),
        decreases call, 1int,
    {
        let ghost vars0 = self.scope.bindings();
        let ghost req0 = self.requests@;
        let ghost rep0 = self.replies@;
        proof {
            lemma_prefix_refl(req0);
            lemma_prefix_refl(rep0);
        }
        let callee = self.evaluate(host, &call.callee)?;
        let ghost req1 = self.requests@;
        let ghost rep1 = self.replies@;
        let no_values: Vec<RuntimeValue> = Vec::new();
        assert(value_models(no_values@) =~= Seq::<Val>::empty());
        let args = self.evaluate_args(host, &call.args, 0, no_values);
        let ghost req2 = self.requests@;
        let ghost rep2 = self.replies@;
        proof {
            lemma_log_split(req0, req1, req2);
            lemma_log_split(rep0, rep1, rep2);
            lemma_eval_frame(
                vars0,
                call.callee.model(),
                rep1.skip(rep0.len() as int),
                rep2.skip(rep1.len() as int),
            );
        }
        let args = args?;
        match callee {
            RuntimeValue::NativeFunction(f) => {
                let first = self.invoke(host, f.id, args);
                proof {
                    lemma_prefix_push(req2, Request::Invoke { function: f.id, args: value_models(args@) });
                    lemma_prefix_push(rep2, reply_of(first));
                    assert(self.replies@.skip(rep2.len() as int) =~= seq![reply_of(first)]);
                    assert(self.requests@.skip(req2.len() as int) =~= seq![
                        Request::Invoke { function: f.id, args: value_models(args@) },
                    ]);
                }
                match first {
                    Ok(RuntimeValue::Future(pending)) => {
                        let ghost req3 = self.requests@;
                        let ghost rep3 = self.replies@;
                        let r = self.resolve(host, pending.id);
                        proof {
                            lemma_prefix_push(req3, Request::Resolve { pending: pending.id });
                            lemma_prefix_push(rep3, reply_of(r));
                            lemma_log_split(req2, req3, self.requests@);
                            lemma_log_split(rep2, rep3, self.replies@);
                            assert(self.replies@.skip(rep2.len() as int) =~= seq![
                                reply_of(first),
                                reply_of(r),
                            ]);
                            assert(self.requests@.skip(req2.len() as int) =~= seq![
                                Request::Invoke { function: f.id, args: value_models(args@) },
                                Request::Resolve { pending: pending.id },
                            ]);
                            lemma_log_split(req0, req2, self.requests@);
                            lemma_log_split(rep0, rep2, self.replies@);
                            lemma_log_split(rep1, rep2, self.replies@);
                            lemma_log_split(rep0, rep1, self.replies@);
                            lemma_eval_frame(
                                vars0,
                                call.callee.model(),
                                rep1.skip(rep0.len() as int),
                                self.replies@.skip(rep1.len() as int),
                            );
                            lemma_args_frame(
                                vars1_of(vars0, call.callee.model(), rep1.skip(rep0.len() as int)),
                                nodes::models(call.args@),
                                0,
                                rep2.skip(rep1.len() as int),
                                self.replies@.skip(rep2.len() as int),
                                Seq::empty(),
                            );
                        }
                        r
                    },
                    other => {
                        proof {
                            lemma_log_split(req0, req2, self.requests@);
                            lemma_log_split(rep0, rep2, self.replies@);
                            lemma_log_split(rep1, rep2, self.replies@);
                            lemma_log_split(rep0, rep1, self.replies@);
                            lemma_eval_frame(
                                vars0,
                                call.callee.model(),
                                rep1.skip(rep0.len() as int),
                                self.replies@.skip(rep1.len() as int),
                            );
                            lemma_args_frame(
                                vars1_of(vars0, call.callee.model(), rep1.skip(rep0.len() as int)),
                                nodes::models(call.args@),
                                0,
                                rep2.skip(rep1.len() as int),
                                self.replies@.skip(rep2.len() as int),
                                Seq::empty(),
                            );
                            let rr = self.replies@.skip(rep0.len() as int);
                            let oc = eval(vars0, call.callee.model(), rr);
                            let oa = eval_args(
                                oc.vars,
                                nodes::models(call.args@),
                                0,
                                rr.skip(oc.requests.len() as int),
                                Seq::empty(),
                            );
                            let before = oc.requests + oa.requests;
                            assert(rr.skip(before.len() as int)[0] == reply_of(other));
                            assert(self.requests@.skip(req0.len() as int) == before.push(
                                Request::Invoke { function: f.id, args: value_models(args@) },
                            ));
                            assert(eval(vars0, call_ast(call), rr) == call_value(
                                Val::Native(f.id),
                                value_models(args@),
                                call.location@,
                                oa.vars,
                                before,
                                rr.skip(before.len() as int),
                            ));
                        }
                        other
                    },
                }
            },
            other => {
                proof {
                    reveal_strlit("Cannot call a ");
                }
                let message = "Cannot call a ".to_owned().concat(other.type_label());
                Err(MakerError::lang(message, call.location.duplicate(), MakerErrorType::RuntimeError))
            },
        }
    }

    fn index(&self, left: &RuntimeValue, member: &nodes::Member) -> (r: Result<RuntimeValue, MakerError>)
        ensures
            result_is(r, index(left.model(), member.right.model(), member.left.model().loc())),
    {
        match left {
            RuntimeValue::Object(obj) => {
                assert(left.model()->Object_0 =~= values::entries(obj.items@));
                match &*member.right {
                    Expression::Identifier(ident) => match values::find_entry(&obj.items, &ident.name) {
                        Some(v) => Ok(v.duplicate()),
                        None => {
                            proof {
                                reveal_strlit("Object does not have key ");
                            }
                            let message = "Object does not have key ".to_owned().concat(ident.name.as_str());
                            Err(MakerError::lang(message, ident.location.duplicate(), MakerErrorType::RuntimeError))
                        },
                    },
                    _ => {
                        proof {
                            reveal_strlit("Can only index an object with an identifier!");
                        }
                        Err(
                            MakerError::lang(
                                "Can only index an object with an identifier!".to_owned(),
                                member.right.get_location(),
                                MakerErrorType::RuntimeError,
                            ),
                        )
                    },
                }
            },
            _ => {
                proof {
                    reveal_strlit("Cannot index a ");
                }
                let message = "Cannot index a ".to_owned().concat(left.type_label());
                Err(MakerError::lang(message, member.left.get_location(), MakerErrorType::RuntimeError))
            },
        }
    }

    fn evaluate_block<H: NativeHost>(
        &mut self,
        host: &mut H,
        nodes: &Vec<Expression>,
        i: usize,
        last: RuntimeValue,
    ) -> (r: Result<RuntimeValue, MakerError>)
        requires
            old(self).wf(),
            i <= nodes@.len(),
        ensures
            final(self).wf(),
            final(self).extends(old(self)),
            final(self).reached(
                old(self),
                eval_block(
                    old(self).scope.bindings(),
                    nodes::models(nodes@),
                    i as int,
                    final(self).replies_since(old(self)),
                    last.model(),
                ),
            ),
            result_is(
                r,
                eval_block(
                    old(self).scope.bindings(),
                    nodes::models(nodes@),
                    i as int,
                    final(self).replies_since(old(self)),
                    last.model(),
                ).result,
            ),
        decreases nodes, nodes@.len() - i,
    {
        let ghost vars0 = self.scope.bindings();
        let ghost req0 = self.requests@;
        let ghost rep0 = self.replies@;
        proof {
            lemma_prefix_refl(req0);
            lemma_prefix_refl(rep0);
        }
        if i >= nodes.len() {
            return Ok(last);
        }
        proof {
            vstd::std_specs::vec::axiom_vec_index_decreases(*nodes, i as int);
        }
        let v = self.evaluate(host, &nodes[i])?;
        let ghost req1 = self.requests@;
        let ghost rep1 = self.replies@;
        let ghost o1 = eval(vars0, nodes@[i as int].model(), rep1.skip(rep0.len() as int));
        let r = self.evaluate_block(host, nodes, i + 1, v);
        proof {
            lemma_log_split(req0, req1, self.requests@);
            lemma_log_split(rep0, rep1, self.replies@);
            lemma_eval_frame(vars0, nodes@[i as int].model(), rep1.skip(rep0.len() as int), self.replies@.skip(rep1.len() as int));
        }
        r
    }

    fn evaluate_args<H: NativeHost>(
        &mut self,
        host: &mut H,
        args: &Vec<Expression>,
        i: usize,
        vals: Vec<RuntimeValue>,
    ) -> (r: Result<Vec<RuntimeValue>, MakerError>)
        requires
            old(self).wf(),
            i <= args@.len(),
        ensures
            final(self).wf(),
            final(self).extends(old(self)),
            ({
                let o = eval_args(
                    old(self).scope.bindings(),
                    nodes::models(args@),
                    i as int,
                    final(self).replies_since(old(self)),
                    value_models(vals@),
                );
                &&& o.requests == final(self).requests@.skip(old(self).requests@.len() as int)
                &&& o.vars == final(self).scope.bindings()
                &&& match (r, o.result) {
                    (Ok(vs), Ok(ms)) => value_models(vs@) == ms,
                    (Err(e), Err(f)) => e.failure() == f,
                    _ => false,
                }
            }),
        decreases args, args@.len() - i,
    {
        let ghost vars0 = self.scope.bindings();
        let ghost req0 = self.requests@;
        let ghost rep0 = self.replies@;
        proof {
            lemma_prefix_refl(req0);
            lemma_prefix_refl(rep0);
        }
        if i >= args.len() {
            return Ok(vals);
        }
        proof {
            vstd::std_specs::vec::axiom_vec_index_decreases(*args, i as int);
        }
        let v = self.evaluate(host, &args[i])?;
        let ghost req1 = self.requests@;
        let ghost rep1 = self.replies@;
        let mut vals = vals;
        let ghost before = value_models(vals@);
        let ghost vm = v.model();
        vals.push(v);
        assert(value_models(vals@) =~= before.push(vm));
        let r = self.evaluate_args(host, args, i + 1, vals);
        proof {
            lemma_log_split(req0, req1, self.requests@);
            lemma_log_split(rep0, rep1, self.replies@);
            lemma_eval_frame(vars0, args@[i as int].model(), rep1.skip(rep0.len() as int), self.replies@.skip(rep1.len() as int));
        }
        r
    }
}

} // verus!
