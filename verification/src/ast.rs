//! The expression tree: immutable algebraic data for queries and function
//! bodies, together with free-variable analysis.

use vstd::prelude::*;

verus! {

/// One top-level input: a function definition, a query to decide, or a
/// command to the runtime.
#[derive(Debug)]
pub enum Action {
    FunctionDef(FunctionDef),
    Query(Expr),
    Command(Command),
}

/// A command to the runtime, entered with a leading dot.
#[derive(Debug)]
pub enum Command {
    ShowCode(String),
    ListFunctions(),
    DeleteFunction(String),
    SwitchMode(String),
    SwitchExecutor(String),
    Test(Expr),
    Benchmark(),
}

/// A named function of zero or one parameter.  Both backends keep a copy.
#[derive(Debug)]
pub struct FunctionDef {
    pub name: String,
    pub parameter: Option<String>,
    pub body: Expr,
}

/// An arithmetic or relational expression over 32-bit signed integers.
///
/// All arithmetic wraps at 32 bits; the relational operators evaluate to
/// 0 or 1.  A function call takes an optional argument expression.
#[derive(Debug)]
pub enum Expr {
    Number(i32),
    Var(String),
    FunctionCall(String, Option<Box<Expr>>),
    Add(Box<Expr>, Box<Expr>),
    Sub(Box<Expr>, Box<Expr>),
    Mul(Box<Expr>, Box<Expr>),
    Div(Box<Expr>, Box<Expr>),
    Rem(Box<Expr>, Box<Expr>),
    Eq(Box<Expr>, Box<Expr>),
    Neq(Box<Expr>, Box<Expr>),
    Gt(Box<Expr>, Box<Expr>),
    Lt(Box<Expr>, Box<Expr>),
    Gte(Box<Expr>, Box<Expr>),
    Lte(Box<Expr>, Box<Expr>),
}

impl Clone for Expr {
    /// A clone is equal to the original tree.
    fn clone(&self) -> (r: Expr)
        ensures
            r == *self,
        decreases *self,
    {
        match self {
            Expr::Number(n) => Expr::Number(*n),
            Expr::Var(v) => Expr::Var(v.clone()),
            Expr::FunctionCall(name, arg) => Expr::FunctionCall(
                name.clone(),
                match arg {
                    Some(a) => Some(Box::new((**a).clone())),
                    None => None,
                },
            ),
            Expr::Add(l, r) => Expr::Add(Box::new((**l).clone()), Box::new((**r).clone())),
            Expr::Sub(l, r) => Expr::Sub(Box::new((**l).clone()), Box::new((**r).clone())),
            Expr::Mul(l, r) => Expr::Mul(Box::new((**l).clone()), Box::new((**r).clone())),
            Expr::Div(l, r) => Expr::Div(Box::new((**l).clone()), Box::new((**r).clone())),
            Expr::Rem(l, r) => Expr::Rem(Box::new((**l).clone()), Box::new((**r).clone())),
            Expr::Eq(l, r) => Expr::Eq(Box::new((**l).clone()), Box::new((**r).clone())),
            Expr::Neq(l, r) => Expr::Neq(Box::new((**l).clone()), Box::new((**r).clone())),
            Expr::Gt(l, r) => Expr::Gt(Box::new((**l).clone()), Box::new((**r).clone())),
            Expr::Lt(l, r) => Expr::Lt(Box::new((**l).clone()), Box::new((**r).clone())),
            Expr::Gte(l, r) => Expr::Gte(Box::new((**l).clone()), Box::new((**r).clone())),
            Expr::Lte(l, r) => Expr::Lte(Box::new((**l).clone()), Box::new((**r).clone())),
        }
    }
}

impl Clone for FunctionDef {
    /// A clone is equal to the original definition.
    fn clone(&self) -> (r: FunctionDef)
        ensures
            r == *self,
    {
        FunctionDef {
            name: self.name.clone(),
            parameter: match &self.parameter {
                Some(p) => Some(p.clone()),
                None => None,
            },
            body: self.body.clone(),
        }
    }
}

/// Structural size of an expression; the measure for recursion over trees.
pub open spec fn expr_size(e: Expr) -> nat
    decreases e,
{
    match e {
        Expr::Number(_) => 1,
        Expr::Var(_) => 1,
        Expr::FunctionCall(_, arg) => match arg {
            Some(a) => 1 + expr_size(*a),
            None => 1,
        },
        Expr::Add(l, r) => 1 + expr_size(*l) + expr_size(*r),
        Expr::Sub(l, r) => 1 + expr_size(*l) + expr_size(*r),
        Expr::Mul(l, r) => 1 + expr_size(*l) + expr_size(*r),
        Expr::Div(l, r) => 1 + expr_size(*l) + expr_size(*r),
        Expr::Rem(l, r) => 1 + expr_size(*l) + expr_size(*r),
        Expr::Eq(l, r) => 1 + expr_size(*l) + expr_size(*r),
        Expr::Neq(l, r) => 1 + expr_size(*l) + expr_size(*r),
        Expr::Gt(l, r) => 1 + expr_size(*l) + expr_size(*r),
        Expr::Lt(l, r) => 1 + expr_size(*l) + expr_size(*r),
        Expr::Gte(l, r) => 1 + expr_size(*l) + expr_size(*r),
        Expr::Lte(l, r) => 1 + expr_size(*l) + expr_size(*r),
    }
}

/// Every variable mentioned in `e`, in order of occurrence, with repeats.
/// The traversal is in-order on binary nodes; a call descends only into its
/// optional argument; a literal yields nothing.
pub open spec fn vars_seq(e: Expr) -> Seq<Seq<char>>
    decreases e,
{
    match e {
        Expr::Number(_) => Seq::empty(),
        Expr::Var(v) => seq![v@],
        Expr::FunctionCall(_, arg) => match arg {
            Some(a) => vars_seq(*a),
            None => Seq::empty(),
        },
        Expr::Add(l, r) => vars_seq(*l) + vars_seq(*r),
        Expr::Sub(l, r) => vars_seq(*l) + vars_seq(*r),
        Expr::Mul(l, r) => vars_seq(*l) + vars_seq(*r),
        Expr::Div(l, r) => vars_seq(*l) + vars_seq(*r),
        Expr::Rem(l, r) => vars_seq(*l) + vars_seq(*r),
        Expr::Eq(l, r) => vars_seq(*l) + vars_seq(*r),
        Expr::Neq(l, r) => vars_seq(*l) + vars_seq(*r),
        Expr::Gt(l, r) => vars_seq(*l) + vars_seq(*r),
        Expr::Lt(l, r) => vars_seq(*l) + vars_seq(*r),
        Expr::Gte(l, r) => vars_seq(*l) + vars_seq(*r),
        Expr::Lte(l, r) => vars_seq(*l) + vars_seq(*r),
    }
}

/// `s` with every repeated element removed, keeping first occurrences in
/// their original order.
pub open spec fn dedup_first(s: Seq<Seq<char>>) -> Seq<Seq<char>>
    decreases s.len(),
{
    if s.len() == 0 {
        Seq::empty()
    } else {
        let front = dedup_first(s.drop_last());
        if front.contains(s.last()) {
            front
        } else {
            front.push(s.last())
        }
    }
}

/// Deduplication keeps emptiness and the first element.
pub proof fn lemma_dedup_first_head(s: Seq<Seq<char>>)
    ensures
        (dedup_first(s).len() == 0) == (s.len() == 0),
        s.len() > 0 ==> dedup_first(s).len() > 0 && dedup_first(s)[0] == s[0],
    decreases s.len(),
{
    if s.len() > 0 {
        lemma_dedup_first_head(s.drop_last());
        if s.len() > 1 {
            assert(s.drop_last()[0] == s[0]);
        }
    }
}

/// A sequence deduplicates to at most one name exactly when all its
/// elements are equal.
pub proof fn lemma_dedup_first_single(s: Seq<Seq<char>>)
    ensures
        (dedup_first(s).len() <= 1) == (forall|i: int| 0 <= i < s.len() ==> #[trigger] s[i] == s[0]),
    decreases s.len(),
{
    if s.len() > 0 {
        let front = dedup_first(s.drop_last());
        lemma_dedup_first_single(s.drop_last());
        lemma_dedup_first_head(s.drop_last());
        lemma_dedup_first_head(s);
        if dedup_first(s).len() <= 1 {
            if s.len() == 1 {
                assert forall|i: int| 0 <= i < s.len() implies #[trigger] s[i] == s[0] by {}
            } else {
                assert(front.len() <= dedup_first(s).len());
                assert(forall|i: int| 0 <= i < s.len() - 1 ==> #[trigger] s.drop_last()[i]
                    == s.drop_last()[0]);
                assert forall|i: int| 0 <= i < s.len() implies #[trigger] s[i] == s[0] by {
                    if i < s.len() - 1 {
                        assert(s.drop_last()[i] == s.drop_last()[0]);
                    } else {
                        assert(front.contains(s.last()));
                        let k = choose|k: int| 0 <= k < front.len() && front[k] == s.last();
                        assert(front[0] == s.drop_last()[0]);
                        assert(s.drop_last()[0] == s[0]);
                    }
                }
            }
        }
        if forall|i: int| 0 <= i < s.len() ==> #[trigger] s[i] == s[0] {
            if s.len() == 1 {
                assert(dedup_first(s).len() <= 1);
            } else {
                assert forall|i: int| 0 <= i < s.len() - 1 implies #[trigger] s.drop_last()[i]
                    == s.drop_last()[0] by {
                    assert(s[i] == s[0] && s.drop_last()[0] == s[0]);
                }
                assert(front.len() <= 1);
                assert(front.len() == 1);
                assert(front[0] == s.drop_last()[0]);
                assert(s.last() == s[0]);
                assert(front.contains(s.last()));
                assert(dedup_first(s) == front);
            }
        }
    }
}

/// True when `v` holds a string whose characters equal `name`.
pub open spec fn names_contain(v: Seq<Seq<char>>, name: Seq<char>) -> bool {
    exists|i: int| 0 <= i < v.len() && v[i] == name
}

/// Exec check that a vector of names contains `name`, by character equality.
fn contains_name(v: &Vec<String>, name: &String) -> (r: bool)
    ensures
        r == names_contain(v.deep_view(), name@),
{
    let mut i: usize = 0;
    while i < v.len()
        invariant
            i <= v.len(),
            forall|j: int| 0 <= j < i ==> v.deep_view()[j] != name@,
        decreases v.len() - i,
    {
        assert(v.deep_view()[i as int] == v@[i as int]@);
        if v[i].eq(name) {
            return true;
        }
        i += 1;
    }
    false
}

impl Expr {
    /// The distinct variable names mentioned in this expression, in
    /// first-occurrence order.  This list drives parameter-register
    /// assignment for queries.
    pub fn used_variables(&self) -> (r: Vec<String>)
        ensures
            r.deep_view() == dedup_first(vars_seq(*self)),
    {
        let mut vars: Vec<String> = Vec::new();
        self.add_used_variables(&mut vars);
        let mut out: Vec<String> = Vec::new();
        let mut i: usize = 0;
        while i < vars.len()
            invariant
                i <= vars.len(),
                vars.deep_view() == vars_seq(*self),
                out.deep_view() == dedup_first(vars.deep_view().take(i as int)),
            decreases vars.len() - i,
        {
            let ghost prefix = vars.deep_view().take(i as int);
            let ghost longer = vars.deep_view().take(i as int + 1);
            assert(longer.drop_last() =~= prefix);
            assert(longer.last() == vars.deep_view()[i as int]);
            assert(vars.deep_view()[i as int] == vars@[i as int]@);
            let picked = !contains_name(&out, &vars[i]);
            proof {
                assert(names_contain(out.deep_view(), vars@[i as int]@)
                    == dedup_first(prefix).contains(longer.last()));
            }
            if picked {
                let name = vars[i].clone();
                assert(name@ == vars@[i as int]@);
                out.push(name);
                assert(out.deep_view() =~= dedup_first(longer));
            } else {
                assert(out.deep_view() =~= dedup_first(longer));
            }
            i += 1;
        }
        assert(vars.deep_view().take(vars.len() as int) =~= vars.deep_view());
        out
    }

    /// Appends every variable occurrence in this expression to `vars`,
    /// in traversal order.
    fn add_used_variables(&self, vars: &mut Vec<String>)
        ensures
            final(vars).deep_view() == old(vars).deep_view() + vars_seq(*self),
        decreases *self,
    {
        match self {
            Expr::Number(_) => {
                assert(final(vars).deep_view() =~= old(vars).deep_view() + vars_seq(*self));
            },
            Expr::Var(v) => {
                vars.push(v.clone());
                assert(final(vars).deep_view() =~= old(vars).deep_view() + vars_seq(*self));
            },
            Expr::FunctionCall(_, arg) => {
                match arg {
                    Some(a) => {
                        a.add_used_variables(vars);
                    },
                    None => {},
                }
                assert(final(vars).deep_view() =~= old(vars).deep_view() + vars_seq(*self));
            },
            Expr::Add(l, r) | Expr::Sub(l, r) | Expr::Mul(l, r) | Expr::Div(l, r)
            | Expr::Rem(l, r) | Expr::Eq(l, r) | Expr::Neq(l, r) | Expr::Gt(l, r)
            | Expr::Lt(l, r) | Expr::Gte(l, r) | Expr::Lte(l, r) => {
                l.add_used_variables(vars);
                r.add_used_variables(vars);
                assert(final(vars).deep_view() =~= old(vars).deep_view() + vars_seq(*self));
            },
        }
    }
}

} // verus!
