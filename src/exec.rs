use vstd::prelude::*;

use crate::ast::{
    stmts_view, ExprModel, Expression, ExpressionKind, Location, Operator, Statement,
    StatementKind, StmtModel,
};
use crate::reporting::{Message, MessageModel};

verus! {

/// Quotient of `a` by `b`, rounded toward zero.
pub open spec fn trunc_div(a: int, b: int) -> int {
    let q = abs(a) / abs(b);
    if (a < 0) == (b < 0) {
        q
    } else {
        -q
    }
}

pub open spec fn abs(a: int) -> int {
    if a < 0 {
        -a
    } else {
        a
    }
}

/// The value of `a op b`. Addition, subtraction and multiplication wrap
/// around on overflow, as does `i64::MIN / -1`; division by zero is an error.
pub open spec fn apply(op: Operator, a: i64, b: i64, location: Location) -> Result<i64, MessageModel> {
    match op {
        Operator::Add => Ok(a.wrapping_add(b)),
        Operator::Sub => Ok(a.wrapping_sub(b)),
        Operator::Mul => Ok(a.wrapping_mul(b)),
        Operator::Div => if b == 0 {
            Err(MessageModel::DivisionByZero(location))
        } else {
            Ok(trunc_div(a as int, b as int) as i64)
        },
    }
}

/// The value of an expression in an environment; operands are evaluated
/// left before right, and the first failure is the result.
pub open spec fn eval(e: ExprModel, env: Map<Seq<char>, i64>) -> Result<i64, MessageModel>
    decreases e,
{
    match e {
        ExprModel::Integer(_, i) => Ok(i),
        ExprModel::Variable(l, name) => if env.contains_key(name) {
            Ok(env[name])
        } else {
            Err(MessageModel::UnknownVariable(name, l))
        },
        ExprModel::Binary(l, lhs, operator, rhs) => match eval(*lhs, env) {
            Err(m) => Err(m),
            Ok(a) => match eval(*rhs, env) {
                Err(m) => Err(m),
                Ok(b) => apply(operator, a, b, l),
            },
        },
        ExprModel::Error(_, m) => Err(m),
    }
}

/// What running `stmts` in `env` prints, and how the run ends.
pub open spec fn run(stmts: Seq<StmtModel>, env: Map<Seq<char>, i64>) -> (
    Seq<i64>,
    Result<(), MessageModel>,
)
    decreases stmts.len(),
{
    if stmts.len() == 0 {
        (seq![], Ok(()))
    } else {
        match stmts[0] {
            StmtModel::Variable(_, name, value) => match eval(value, env) {
                Ok(v) => run(stmts.drop_first(), env.insert(name, v)),
                Err(m) => (seq![], Err(m)),
            },
            StmtModel::Print(_, value) => match eval(value, env) {
                Ok(v) => (seq![v] + run(stmts.drop_first(), env).0, run(stmts.drop_first(), env).1),
                Err(m) => (seq![], Err(m)),
            },
            StmtModel::Error(_, m) => (seq![], Err(m)),
        }
    }
}

pub open spec fn result_view<T>(r: Result<T, Message>) -> Result<T, MessageModel> {
    match r {
        Ok(v) => Ok(v),
        Err(m) => Err(m@),
    }
}

/// The variables of a run, as a list of bindings in order of assignment; a
/// later binding of a name hides the earlier ones. A list keyed by string
/// views keeps every lookup provable against the map model.
pub struct Variables {
    pub bindings: Vec<(String, i64)>,
}

pub open spec fn bindings_map(s: Seq<(String, i64)>) -> Map<Seq<char>, i64>
    decreases s.len(),
{
    if s.len() == 0 {
        Map::empty()
    } else {
        bindings_map(s.drop_last()).insert(s.last().0@, s.last().1)
    }
}

proof fn lemma_bindings_prefix(s: Seq<(String, i64)>, i: int, k: Seq<char>)
    requires
        0 <= i <= s.len(),
        forall|j: int| i <= j < s.len() ==> (#[trigger] s[j]).0@ != k,
    ensures
        bindings_map(s).contains_key(k) == bindings_map(s.subrange(0, i)).contains_key(k),
        bindings_map(s)[k] == bindings_map(s.subrange(0, i))[k],
    decreases s.len() - i,
{
    if i < s.len() {
        lemma_bindings_prefix(s.drop_last(), i, k);
        assert(s.drop_last().subrange(0, i) =~= s.subrange(0, i));
    } else {
        assert(s.subrange(0, i) =~= s);
    }
}

impl View for Variables {
    type V = Map<Seq<char>, i64>;

    open spec fn view(&self) -> Map<Seq<char>, i64> {
        bindings_map(self.bindings@)
    }
}

impl Variables {
    pub fn new() -> (r: Self)
        ensures
            r@ == Map::<Seq<char>, i64>::empty(),
    {
        Variables { bindings: Vec::new() }
    }

    pub fn get(&self, name: &String) -> (r: Option<i64>)
        ensures
            r == (if self@.contains_key(name@) {
                Some(self@[name@])
            } else {
                None
            }),
    {
        let mut i = self.bindings.len();
        while i > 0
            invariant
                i <= self.bindings@.len(),
                forall|j: int| i <= j < self.bindings@.len() ==> (#[trigger] self.bindings@[j]).0@ != name@,
            decreases i,
        {
            i = i - 1;
            if self.bindings[i].0 == *name {
                proof {
                    lemma_bindings_prefix(self.bindings@, i + 1, name@);
                    assert(self.bindings@.subrange(0, i + 1).drop_last() =~= self.bindings@.subrange(0, i as int));
                }
                return Some(self.bindings[i].1);
            }
        }
        proof {
            lemma_bindings_prefix(self.bindings@, 0, name@);
        }
        None
    }

    pub fn set(&mut self, name: String, value: i64)
        ensures
            final(self)@ == old(self)@.insert(name@, value),
    {
        self.bindings.push((name, value));
        assert(self.bindings@.drop_last() =~= old(self).bindings@);
    }
}

fn apply_operator(op: Operator, a: i64, b: i64, location: Location) -> (r: Result<i64, Message>)
    ensures
        result_view(r) == apply(op, a, b, location),
{
    match op {
        Operator::Add => Ok(a.wrapping_add(b)),
        Operator::Sub => Ok(a.wrapping_sub(b)),
        Operator::Mul => Ok(a.wrapping_mul(b)),
        Operator::Div => {
            if b == 0 {
                return Err(Message::DivisionByZero(location));
            }
            let ua: u64 = if a < 0 { (0 - (a as i128)) as u64 } else { a as u64 };
            let ub: u64 = if b < 0 { (0 - (b as i128)) as u64 } else { b as u64 };
            let q: u64 = ua / ub;
            let r: i128 = if (a < 0) == (b < 0) { q as i128 } else { 0 - (q as i128) };
            proof {
                assert(q as int == abs(a as int) / abs(b as int));
            }
            Ok(r as i64)
        },
    }
}

fn exec_expression(expression: Expression, variables: &Variables) -> (r: Result<i64, Message>)
    ensures
        result_view(r) == eval(expression@, variables@),
    decreases expression,
{
    let location = expression.location;
    match expression.kind {
        ExpressionKind::Integer(i) => Ok(i),
        ExpressionKind::Variable(name) => match variables.get(&name) {
            Some(v) => Ok(v),
            None => Err(Message::UnknownVariable(name, location)),
        },
        ExpressionKind::BinaryOperation { lhs, operator, rhs } => {
            let a = match exec_expression(*lhs, variables) {
                Ok(a) => a,
                Err(m) => return Err(m),
            };
            let b = match exec_expression(*rhs, variables) {
                Ok(b) => b,
                Err(m) => return Err(m),
            };
            apply_operator(operator, a, b, location)
        },
        ExpressionKind::Error(m) => Err(m),
    }
}

/// Runs the statements in order. The value of each `print` is appended to
/// `output`; the run stops at the first failing statement and returns its
/// diagnostic, keeping what was printed before it.
pub fn execute(ast: Vec<Statement>, output: &mut Vec<i64>) -> (r: Result<(), Message>)
    ensures
        final(output)@ == old(output)@ + run(stmts_view(ast@), Map::empty()).0,
        result_view(r) == run(stmts_view(ast@), Map::empty()).1,
{
    let mut variables = Variables::new();
    let ghost all = stmts_view(ast@);
    let ghost start = output@;
    let mut pending = ast;
    while pending.len() > 0
        invariant
            all == stmts_view(ast@),
            start == old(output)@,
            output@ + run(stmts_view(pending@), variables@).0 == start + run(all, Map::empty()).0,
            run(stmts_view(pending@), variables@).1 == run(all, Map::empty()).1,
        decreases pending@.len(),
    {
        let ghost rest = pending@;
        let statement = pending.remove(0);
        assert(pending@ =~= rest.drop_first());
        assert(stmts_view(pending@) =~= stmts_view(rest).drop_first());
        match statement.kind {
            StatementKind::Variable { name, value } => match exec_expression(*value, &variables) {
                Ok(v) => variables.set(name, v),
                Err(m) => {
                    assert(output@ == start + run(all, Map::empty()).0);
                    return Err(m);
                },
            },
            StatementKind::Print { value } => match exec_expression(*value, &variables) {
                Ok(v) => {
                    let ghost before = output@;
                    output.push(v);
                    assert(output@ + run(stmts_view(pending@), variables@).0 =~= before + run(
                        stmts_view(rest),
                        variables@,
                    ).0);
                },
                Err(m) => {
                    assert(output@ + seq![] =~= output@);
                    return Err(m);
                },
            },
            StatementKind::Error(m) => {
                assert(output@ + seq![] =~= output@);
                return Err(m);
            },
        }
    }
    assert(output@ + seq![] =~= output@);
    Ok(())
}

} // verus!
