use vstd::prelude::*;

use crate::ast::{Chain, Expr, If, Literal, Not, RecordRef, VariableRef};
use crate::ident::Ident;
use crate::path::{Path, Seg};
use crate::types::{Type, TypeContext, TypeV};

verus! {

/// The outcome of type-checking one expression: either its inferred type or
/// a non-empty ordered list of located errors.
#[derive(Debug, PartialEq)]
pub struct Check(pub Result<Type, Vec<Error>>);

/// One type error together with the exact root-to-node route taken to reach
/// the failing node.
#[derive(Debug, PartialEq)]
pub struct Error {
    pub path: Path,
    pub error: TypeError,
}

/// The closed taxonomy of type errors.
#[derive(Debug, PartialEq)]
pub enum TypeError {
    /// A node was left unfilled.
    EmptyExpr,
    /// A value was required to be one type but is another.
    TypeMismatch(TypeMismatch),
    /// An identifier was not found in the environment or record consulted.
    Undefined(Ident),
    /// Record-field access was attempted on a non-record.
    ExpectedRecord(Type),
}

/// The two sides of a [`TypeError::TypeMismatch`].
#[derive(Debug, PartialEq)]
pub struct TypeMismatch {
    pub expected: Type,
    pub received: Type,
}

/// The abstract value of an [`Error`].
pub struct ErrorV {
    pub path: Seq<Seg>,
    pub error: TypeErrorV,
}

/// The abstract value of a [`TypeError`].
pub enum TypeErrorV {
    EmptyExpr,
    TypeMismatch { expected: TypeV, received: TypeV },
    Undefined(Seq<char>),
    ExpectedRecord(TypeV),
}

impl View for TypeError {
    type V = TypeErrorV;

    open spec fn view(&self) -> TypeErrorV {
        match self {
            TypeError::EmptyExpr => TypeErrorV::EmptyExpr,
            TypeError::TypeMismatch(m) => (TypeErrorV::TypeMismatch {
                expected: m.expected@,
                received: m.received@,
            }),
            TypeError::Undefined(id) => TypeErrorV::Undefined(id@),
            TypeError::ExpectedRecord(t) => TypeErrorV::ExpectedRecord(t@),
        }
    }
}

impl View for Error {
    type V = ErrorV;

    open spec fn view(&self) -> ErrorV {
        ErrorV { path: self.path@, error: self.error@ }
    }
}

/// The abstract value of an error list.
pub open spec fn errors_view(es: Seq<Error>) -> Seq<ErrorV> {
    es.map_values(|e: Error| e@)
}

impl From<Result<Type, Vec<Error>>> for Check {
    fn from(result: Result<Type, Vec<Error>>) -> Check {
        Check(result)
    }
}

impl vstd::std_specs::convert::FromSpecImpl<Result<Type, Vec<Error>>> for Check {
    open spec fn obeys_from_spec() -> bool {
        true
    }

    open spec fn from_spec(result: Result<Type, Vec<Error>>) -> Check {
        Check(result)
    }
}

impl View for Check {
    type V = Result<TypeV, Seq<ErrorV>>;

    open spec fn view(&self) -> Result<TypeV, Seq<ErrorV>> {
        match self.0 {
            Ok(t) => Ok(t@),
            Err(es) => Err(errors_view(es@)),
        }
    }
}

/// A failing outcome holding exactly one error.
pub open spec fn fail_with(path: Seq<Seg>, error: TypeErrorV) -> Result<TypeV, Seq<ErrorV>> {
    Err(seq![ErrorV { path, error }])
}

/// Requires an already-computed child outcome to be `Bool`: a successful
/// outcome of any other type becomes a `TypeMismatch` at the child's path,
/// and a failing outcome propagates unchanged.
pub open spec fn expect_bool(p: Seq<Seg>, r: Result<TypeV, Seq<ErrorV>>) -> Result<
    TypeV,
    Seq<ErrorV>,
> {
    match r {
        Ok(TypeV::Bool) => Ok(TypeV::Bool),
        Ok(t) => fail_with(p, (TypeErrorV::TypeMismatch { expected: TypeV::Bool, received: t })),
        Err(es) => Err(es),
    }
}

/// Requires an already-computed child outcome to be a record, yielding its
/// field map: a successful outcome of any other type becomes an
/// `ExpectedRecord` at the child's path, and a failing outcome propagates
/// unchanged.
pub open spec fn expect_record(p: Seq<Seg>, r: Result<TypeV, Seq<ErrorV>>) -> Result<
    Map<Seq<char>, TypeV>,
    Seq<ErrorV>,
> {
    match r {
        Ok(TypeV::Record(m)) => Ok(m),
        Ok(t) => Err(seq![ErrorV { path: p, error: TypeErrorV::ExpectedRecord(t) }]),
        Err(es) => Err(es),
    }
}

/// The typing rules: the outcome of checking an expression at a path against
/// an environment. Every closed variant has a defined rule; there is no
/// default fallthrough.
pub open spec fn check_expr(e: Expr, env: Map<Seq<char>, TypeV>, path: Seq<Seg>) -> Result<
    TypeV,
    Seq<ErrorV>,
>
    decreases e,
{
    match e {
        Expr::Empty => fail_with(path, TypeErrorV::EmptyExpr),
        Expr::LitBool(_) => Ok(TypeV::Bool),
        Expr::LitNumber(_) => Ok(TypeV::Number),
        Expr::LitText(_) => Ok(TypeV::Text),
        Expr::Not(n) => check_not(*n, env, path),
        Expr::If(i) => check_if(*i, env, path),
        Expr::Chain(c) => check_chain(c, env, path),
        Expr::VariableRef(v) => check_var(v, env, path),
        Expr::RecordRef(r) => check_record_ref(*r, env, path),
    }
}

/// Negation: the operand, at path + `Not`, must check to `Bool`; the node
/// itself then has type `Bool`. A single-child wrapper, it short-circuits on
/// its child's failure.
pub open spec fn check_not(n: Not, env: Map<Seq<char>, TypeV>, path: Seq<Seg>) -> Result<
    TypeV,
    Seq<ErrorV>,
>
    decreases n,
{
    expect_bool(path.push(Seg::Not), check_expr(n.not, env, path.push(Seg::Not)))
}

/// Conditional: the condition, at path + `IfCond`, must check to `Bool`; the
/// consequence, at path + `IfCons`, carries no type constraint. Both branches
/// are checked even if one fails, and their error lists are concatenated in
/// traversal order. On success the node has type `Unit`.
pub open spec fn check_if(i: If, env: Map<Seq<char>, TypeV>, path: Seq<Seg>) -> Result<
    TypeV,
    Seq<ErrorV>,
>
    decreases i,
{
    let cond = expect_bool(
        path.push(Seg::IfCond),
        check_expr(i.condition, env, path.push(Seg::IfCond)),
    );
    let cons = check_expr(i.consequence, env, path.push(Seg::IfCons));
    match (cond, cons) {
        (Ok(_), Ok(_)) => Ok(TypeV::Unit),
        (Err(a), Err(b)) => Err(a + b),
        (Err(a), Ok(_)) => Err(a),
        (Ok(_), Err(b)) => Err(b),
    }
}

/// Chain: every element is checked, in order and without short-circuiting,
/// element `j` at path + `ChainN(j)`. On success the node has type
/// `List(Unit)` for an empty chain and otherwise `List` of the last
/// element's type; on failure all elements' errors appear in traversal
/// order.
pub open spec fn check_chain(c: Chain, env: Map<Seq<char>, TypeV>, path: Seq<Seg>) -> Result<
    TypeV,
    Seq<ErrorV>,
>
    decreases c,
{
    match chain_elems(c.chain@, env, path) {
        Ok(t) => Ok(TypeV::List(Box::new(t))),
        Err(es) => Err(es),
    }
}

/// The combined outcome of a chain's elements: the last element's type (or
/// `Unit` when there are none), or every element's errors in order.
pub open spec fn chain_elems(es: Seq<Expr>, env: Map<Seq<char>, TypeV>, path: Seq<Seg>) -> Result<
    TypeV,
    Seq<ErrorV>,
>
    decreases es,
{
    if es.len() == 0 {
        Ok(TypeV::Unit)
    } else {
        let prev = chain_elems(es.drop_last(), env, path);
        let cur = check_expr(es.last(), env, path.push(Seg::ChainN((es.len() - 1) as usize)));
        match (prev, cur) {
            (Ok(_), Ok(t)) => Ok(t),
            (Err(a), Err(b)) => Err(a + b),
            (Err(a), Ok(_)) => Err(a),
            (Ok(_), Err(b)) => Err(b),
        }
    }
}

/// Variable reference: the bound type if the environment binds the name,
/// else `Undefined` at the node's own path.
pub open spec fn check_var(v: VariableRef, env: Map<Seq<char>, TypeV>, path: Seq<Seg>) -> Result<
    TypeV,
    Seq<ErrorV>,
> {
    if env.contains_key(v.identifier@) {
        Ok(env[v.identifier@])
    } else {
        fail_with(path, TypeErrorV::Undefined(v.identifier@))
    }
}

/// Record-field access: the record sub-expression, at path + `RecordRef`,
/// must check to a record type, whose fields are then consulted for the
/// name; a missing name is `Undefined`, and a non-record is
/// `ExpectedRecord`, both at path + `RecordRef`. The field lookup is never
/// attempted when the sub-expression does not check to a record.
pub open spec fn check_record_ref(
    r: RecordRef,
    env: Map<Seq<char>, TypeV>,
    path: Seq<Seg>,
) -> Result<TypeV, Seq<ErrorV>>
    decreases r,
{
    let p = path.push(Seg::RecordRef);
    match expect_record(p, check_expr(r.record, env, p)) {
        Err(es) => Err(es),
        Ok(m) => if m.contains_key(r.identifier@) {
            Ok(m[r.identifier@])
        } else {
            fail_with(p, TypeErrorV::Undefined(r.identifier@))
        },
    }
}

impl Check {
    /// The failing outcome holding exactly the given error.
    pub fn fail(error: Error) -> (r: Check)
        ensures
            r@ == fail_with(error@.path, error@.error),
    {
        let mut errors: Vec<Error> = Vec::new();
        let ghost e = error@;
        errors.push(error);
        proof {
            assert(errors_view(errors@) =~= seq![e]);
        }
        Check(Err(errors))
    }

    /// The successful outcome of the given type.
    pub fn succeed(t: Type) -> (r: Check)
        ensures
            r@ == Ok::<TypeV, Seq<ErrorV>>(t@),
            r.0 matches Ok(rt) ==> rt == t,
    {
        Check(Ok(t))
    }

    /// Requires a type already inferred for the node at `path` to be `Bool`.
    pub fn assert_bool(path: Path, type_: Type) -> (r: Check)
        ensures
            r@ == expect_bool(path@, Ok(type_@)),
            r.0 matches Ok(rt) ==> rt.wf(),
    {
        match type_ {
            Type::Bool => Check::succeed(Type::Bool),
            type_ => Check::fail(
                Error {
                    path,
                    error: TypeError::TypeMismatch(
                        TypeMismatch { expected: Type::Bool, received: type_ },
                    ),
                },
            ),
        }
    }

    /// Applies a function to the inferred type of a successful outcome; a
    /// failing outcome is returned unchanged.
    pub fn map<F: FnOnce(Type) -> Type>(self, f: F) -> (r: Check)
        requires
            forall|t: Type| #[trigger] f.requires((t,)),
        ensures
            self.0 is Err ==> r == self,
            self.0 is Ok ==> r.0 is Ok && f.ensures((self.0->Ok_0,), r.0->Ok_0),
    {
        match self.0 {
            Ok(t) => Check(Ok(f(t))),
            Err(e) => Check(Err(e)),
        }
    }

    /// Combines two outcomes: both successes feed the function; both
    /// failures concatenate their error lists in argument order; otherwise
    /// the single failure wins.
    pub fn map2<F: FnOnce(Type, Type) -> Type>(f: F, r1: Check, r2: Check) -> (r: Check)
        requires
            forall|a: Type, b: Type| #[trigger] f.requires((a, b)),
        ensures
            r1.0 is Ok && r2.0 is Ok ==> r.0 is Ok && f.ensures(
                (r1.0->Ok_0, r2.0->Ok_0),
                r.0->Ok_0,
            ),
            r1.0 is Err && r2.0 is Err ==> r.0 is Err && r.0->Err_0@ == r1.0->Err_0@
                + r2.0->Err_0@,
            r1.0 is Err && r2.0 is Ok ==> r == r1,
            r1.0 is Ok && r2.0 is Err ==> r == r2,
    {
        match (r1.0, r2.0) {
            (Ok(a), Ok(b)) => Check(Ok(f(a, b))),
            (Err(mut a), Err(mut b)) => {
                a.append(&mut b);
                Check(Err(a))
            },
            (Err(a), _) => Check(Err(a)),
            (_, Err(a)) => Check(Err(a)),
        }
    }

    /// Chains a dependent check onto a successful outcome; a failing outcome
    /// short-circuits.
    pub fn and_then<F: FnOnce(Type) -> Check>(self, f: F) -> (r: Check)
        requires
            forall|t: Type| #[trigger] f.requires((t,)),
        ensures
            self.0 is Err ==> r == self,
            self.0 is Ok ==> f.ensures((self.0->Ok_0,), r),
    {
        match self.0 {
            Ok(t) => f(t),
            Err(e) => Check(Err(e)),
        }
    }

    /// Requires the expression at `path` to check to a record type, yielding
    /// its field mapping.
    pub fn assert_record(expr: &Expr, path: Path, ctx: &mut TypeContext) -> (r: Result<
        TypeContext,
        Vec<Error>,
    >)
        requires
            old(ctx).wf(),
        ensures
            *final(ctx) == *old(ctx),
            match r {
                Ok(rec) => expect_record(path@, check_expr(*expr, old(ctx)@, path@)) == Ok::<
                    Map<Seq<char>, TypeV>,
                    Seq<ErrorV>,
                >(rec@) && rec.wf(),
                Err(errors) => expect_record(path@, check_expr(*expr, old(ctx)@, path@)) == Err::<
                    Map<Seq<char>, TypeV>,
                    Seq<ErrorV>,
                >(errors_view(errors@)),
            },
        decreases expr, 1int,
    {
        let pc = path.clone();
        proof {
            assert(pc@ =~= path@);
        }
        let c = expr.check(pc, ctx);
        match c.0 {
            Ok(Type::Record(record)) => Ok(record),
            Ok(type_) => {
                let mut errors: Vec<Error> = Vec::new();
                let e = Error { path, error: TypeError::ExpectedRecord(type_) };
                let ghost ev = e@;
                errors.push(e);
                proof {
                    assert(errors_view(errors@) =~= seq![ev]);
                }
                Err(errors)
            },
            Err(errors) => Err(errors),
        }
    }
}

/// Error-list views distribute over concatenation.
pub proof fn lemma_errors_view_concat(a: Seq<Error>, b: Seq<Error>)
    ensures
        errors_view(a + b) == errors_view(a) + errors_view(b),
{
    assert(errors_view(a + b) =~= errors_view(a) + errors_view(b));
}

impl Expr {
    /// Checks this expression at `path`: the recursive dispatch over the
    /// closed variant set.
    pub fn check(&self, path: Path, ctx: &mut TypeContext) -> (r: Check)
        requires
            old(ctx).wf(),
        ensures
            *final(ctx) == *old(ctx),
            r@ == check_expr(*self, old(ctx)@, path@),
            r.0 matches Ok(t) ==> t.wf(),
        decreases self, 0int,
    {
        match self {
            Expr::Empty => Check::fail(Error { error: TypeError::EmptyExpr, path }),
            Expr::LitBool(_) => Check::succeed(Type::Bool),
            Expr::LitNumber(_) => Check::succeed(Type::Number),
            Expr::LitText(_) => Check::succeed(Type::Text),
            Expr::Not(not) => not.check(path, ctx),
            Expr::If(if_) => if_.check(path, ctx),
            Expr::Chain(chain) => chain.check(path, ctx),
            Expr::VariableRef(var) => var.check(path, ctx),
            Expr::RecordRef(record_ref) => record_ref.check(path, ctx),
        }
    }
}

impl Not {
    /// Checks a negation: the operand must check to `Bool`.
    pub fn check(&self, path: Path, ctx: &mut TypeContext) -> (r: Check)
        requires
            old(ctx).wf(),
        ensures
            *final(ctx) == *old(ctx),
            r@ == check_not(*self, old(ctx)@, path@),
            r.0 matches Ok(t) ==> t.wf(),
        decreases self, 0int,
    {
        let mut p = path;
        p.push(Seg::Not);
        let pc = p.clone();
        proof {
            assert(pc@ =~= p@);
        }
        let inner = self.not.check(pc, ctx);
        inner.and_then(
            (|type_: Type| -> (c: Check)
                ensures
                    c@ == expect_bool(p@, Ok(type_@)),
                    c.0 matches Ok(t) ==> t.wf(),
                {
                    Check::assert_bool(p, type_)
                }),
        ).map(
            (|type_: Type| -> (t2: Type)
                ensures
                    t2 == Type::Bool,
                {
                    Type::Bool
                }),
        )
    }
}

impl If {
    /// Checks a conditional: the condition must check to `Bool`, the
    /// consequence carries no constraint, and both are checked even if one
    /// fails.
    pub fn check(&self, path: Path, ctx: &mut TypeContext) -> (r: Check)
        requires
            old(ctx).wf(),
        ensures
            *final(ctx) == *old(ctx),
            r@ == check_if(*self, old(ctx)@, path@),
            r.0 matches Ok(t) ==> t.wf(),
        decreases self, 0int,
    {
        let mut cond_path = path.clone();
        proof {
            assert(cond_path@ =~= path@);
        }
        let mut cons_path = path;
        cond_path.push(Seg::IfCond);
        cons_path.push(Seg::IfCons);

        let cpc = cond_path.clone();
        proof {
            assert(cpc@ =~= cond_path@);
        }
        let condition = self.condition.check(cpc, ctx).and_then(
            (|type_: Type| -> (c: Check)
                ensures
                    c@ == expect_bool(cond_path@, Ok(type_@)),
                {
                    Check::assert_bool(cond_path, type_)
                }),
        );

        let consequence = self.consequence.check(cons_path, ctx);

        let ghost cv = condition@;
        let ghost sv = consequence@;
        let r = Check::map2(
            (|_a: Type, _b: Type| -> (t2: Type)
                ensures
                    t2 == Type::Unit,
                {
                    Type::Unit
                }),
            condition,
            consequence,
        );
        proof {
            if cv is Err && sv is Err {
                lemma_errors_view_concat(condition.0->Err_0@, consequence.0->Err_0@);
            }
        }
        r
    }
}

impl Chain {
    /// Checks a chain: every element is checked in order, without
    /// short-circuiting, and all errors are kept in traversal order.
    #[verifier::loop_isolation(false)]
    pub fn check(&self, path: Path, ctx: &mut TypeContext) -> (r: Check)
        requires
            old(ctx).wf(),
        ensures
            *final(ctx) == *old(ctx),
            r@ == check_chain(*self, old(ctx)@, path@),
            r.0 matches Ok(t) ==> t.wf(),
        decreases self, 0int,
    {
        let n = self.chain.len();
        let mut errors: Vec<Error> = Vec::new();
        let mut failed = false;
        let mut last: Type = Type::Unit;
        let mut i: usize = 0;
        while i < n
            invariant
                *ctx == *old(ctx),
                i <= n,
                !failed ==> errors@ == Seq::<Error>::empty(),
                !failed ==> chain_elems(
                    self.chain@.subrange(0, i as int),
                    old(ctx)@,
                    path@,
                ) == Ok::<TypeV, Seq<ErrorV>>(last@) && last.wf(),
                failed ==> chain_elems(
                    self.chain@.subrange(0, i as int),
                    old(ctx)@,
                    path@,
                ) == Err::<TypeV, Seq<ErrorV>>(errors_view(errors@)),
            decreases n - i,
        {
            let mut p = path.clone();
            proof {
                assert(p@ =~= path@);
            }
            p.push(Seg::ChainN(i));
            let ghost pre_elems = self.chain@.subrange(0, i as int);
            let ghost pre_errors = errors@;
            let c = self.chain[i].check(p, ctx);
            match c.0 {
                Ok(t) => {
                    last = t;
                },
                Err(mut es) => {
                    proof {
                        lemma_errors_view_concat(pre_errors, es@);
                    }
                    failed = true;
                    errors.append(&mut es);
                },
            }
            i += 1;
            proof {
                let cur = self.chain@.subrange(0, i as int);
                assert(cur.drop_last() =~= pre_elems);
                assert(cur.last() == self.chain@[i - 1]);
            }
        }
        proof {
            assert(self.chain@.subrange(0, n as int) =~= self.chain@);
        }
        if !failed {
            Check::succeed(Type::List(Box::new(last)))
        } else {
            Check(Err(errors))
        }
    }
}

impl VariableRef {
    /// Checks a variable reference by looking the name up in the
    /// environment.
    pub fn check(&self, path: Path, ctx: &mut TypeContext) -> (r: Check)
        requires
            old(ctx).wf(),
        ensures
            *final(ctx) == *old(ctx),
            r@ == check_var(*self, old(ctx)@, path@),
            r.0 matches Ok(t) ==> t.wf(),
    {
        match ctx.get(&self.identifier) {
            Some(t) => Check::succeed(t.deep_clone()),
            None => Check::fail(
                Error { error: TypeError::Undefined(self.identifier.clone()), path },
            ),
        }
    }
}

impl RecordRef {
    /// Checks record-field access: the record sub-expression must check to a
    /// record type, whose fields are then consulted for the name.
    pub fn check(&self, path: Path, ctx: &mut TypeContext) -> (r: Check)
        requires
            old(ctx).wf(),
        ensures
            *final(ctx) == *old(ctx),
            r@ == check_record_ref(*self, old(ctx)@, path@),
            r.0 matches Ok(t) ==> t.wf(),
        decreases self, 0int,
    {
        let mut p = path;
        p.push(Seg::RecordRef);
        let p2 = p.clone();
        proof {
            assert(p2@ =~= p@);
        }
        match Check::assert_record(&self.record, p, ctx) {
            Err(errors) => Check(Err(errors)),
            Ok(rec) => match rec.get(&self.identifier) {
                Some(t) => Check::succeed(t.deep_clone()),
                None => Check::fail(
                    Error { error: TypeError::Undefined(self.identifier.clone()), path: p2 },
                ),
            },
        }
    }
}

/// Typing law for literals: every literal expression is well typed, with
/// its matching base type, in every environment and at every path — never
/// an error.
pub proof fn lemma_literal_types(
    env: Map<Seq<char>, TypeV>,
    path: Seq<Seg>,
    b: Literal<bool>,
    n: Literal<i32>,
    t: Literal<String>,
)
    ensures
        check_expr(Expr::LitBool(b), env, path) == Ok::<TypeV, Seq<ErrorV>>(TypeV::Bool),
        check_expr(Expr::LitNumber(n), env, path) == Ok::<TypeV, Seq<ErrorV>>(TypeV::Number),
        check_expr(Expr::LitText(t), env, path) == Ok::<TypeV, Seq<ErrorV>>(TypeV::Text),
{
}

/// Typing law for record access on a non-record: when the record
/// sub-expression checks to any type other than a record, the access fails
/// with exactly one `ExpectedRecord` carrying that type, at path +
/// `RecordRef` — the field lookup is never attempted.
pub proof fn lemma_record_ref_non_record(
    r: RecordRef,
    env: Map<Seq<char>, TypeV>,
    path: Seq<Seg>,
    t: TypeV,
)
    requires
        check_expr(r.record, env, path.push(Seg::RecordRef)) == Ok::<TypeV, Seq<ErrorV>>(t),
        !(t is Record),
    ensures
        check_record_ref(r, env, path) == fail_with(
            path.push(Seg::RecordRef),
            TypeErrorV::ExpectedRecord(t),
        ),
{
}

/// Determinism law: the outcome of a check is a function of the tree and
/// the environment alone, so two runs on the same pair — the environment is
/// never changed by a run — give identical outcomes.
pub proof fn lemma_typecheck_idempotent(r1: Check, r2: Check, e: Expr, env: Map<Seq<char>, TypeV>)
    requires
        r1@ == check_expr(e, env, Seq::<Seg>::empty()),
        r2@ == check_expr(e, env, Seq::<Seg>::empty()),
    ensures
        r1@ == r2@,
{
}

proof fn lemma_prefix_trans(a: Seq<Seg>, b: Seq<Seg>, c: Seq<Seg>)
    requires
        a.is_prefix_of(b),
        b.is_prefix_of(c),
    ensures
        a.is_prefix_of(c),
{
    assert forall|x: int| 0 <= x < a.len() implies a[x] == c[x] by {
        assert(a[x] == b.subrange(0, a.len() as int)[x]);
        assert(b[x] == c.subrange(0, b.len() as int)[x]);
    }
    assert(a =~= c.subrange(0, a.len() as int));
}

/// Location law: a failing check reports at least one error, and every
/// reported error's path extends the path at which the checker entered the
/// node — the exact root-to-node route.
pub proof fn lemma_check_expr_errors(e: Expr, env: Map<Seq<char>, TypeV>, path: Seq<Seg>)
    ensures
        check_expr(e, env, path) matches Err(es) ==> es.len() >= 1 && (forall|k: int|
            0 <= k < es.len() ==> path.is_prefix_of((#[trigger] es[k]).path)),
    decreases e,
{
    match e {
        Expr::Empty => {
            assert(path.is_prefix_of(path)) by {
                assert(path =~= path.subrange(0, path.len() as int));
            }
        },
        Expr::LitBool(_) => {},
        Expr::LitNumber(_) => {},
        Expr::LitText(_) => {},
        Expr::Not(n) => {
            let p = path.push(Seg::Not);
            lemma_prefix_push(path, Seg::Not);
            lemma_check_expr_errors(n.not, env, p);
            match check_expr(n.not, env, p) {
                Ok(_) => {},
                Err(es) => {
                    assert forall|k: int| 0 <= k < es.len() implies path.is_prefix_of(
                        (#[trigger] es[k]).path,
                    ) by {
                        lemma_prefix_trans(path, p, es[k].path);
                    }
                },
            }
        },
        Expr::If(i) => {
            let pc = path.push(Seg::IfCond);
            let ps = path.push(Seg::IfCons);
            lemma_prefix_push(path, Seg::IfCond);
            lemma_prefix_push(path, Seg::IfCons);
            lemma_check_expr_errors(i.condition, env, pc);
            lemma_check_expr_errors(i.consequence, env, ps);
            let cond = expect_bool(pc, check_expr(i.condition, env, pc));
            let cons = check_expr(i.consequence, env, ps);
            assert(cond matches Err(a) ==> a.len() >= 1 && (forall|k: int|
                0 <= k < a.len() ==> pc.is_prefix_of((#[trigger] a[k]).path)));
            match (cond, cons) {
                (Err(a), Err(b)) => {
                    assert forall|k: int| 0 <= k < (a + b).len() implies path.is_prefix_of(
                        (#[trigger] (a + b)[k]).path,
                    ) by {
                        if k < a.len() {
                            lemma_prefix_trans(path, pc, a[k].path);
                        } else {
                            lemma_prefix_trans(path, ps, b[k - a.len()].path);
                        }
                    }
                },
                (Err(a), Ok(_)) => {
                    assert forall|k: int| 0 <= k < a.len() implies path.is_prefix_of(
                        (#[trigger] a[k]).path,
                    ) by {
                        lemma_prefix_trans(path, pc, a[k].path);
                    }
                },
                (Ok(_), Err(b)) => {
                    assert forall|k: int| 0 <= k < b.len() implies path.is_prefix_of(
                        (#[trigger] b[k]).path,
                    ) by {
                        lemma_prefix_trans(path, ps, b[k].path);
                    }
                },
                (Ok(_), Ok(_)) => {},
            }
        },
        Expr::Chain(c) => {
            lemma_chain_elems_errors(c.chain@, env, path);
        },
        Expr::VariableRef(v) => {
            assert(path.is_prefix_of(path)) by {
                assert(path =~= path.subrange(0, path.len() as int));
            }
        },
        Expr::RecordRef(r) => {
            let p = path.push(Seg::RecordRef);
            lemma_prefix_push(path, Seg::RecordRef);
            lemma_check_expr_errors(r.record, env, p);
            match check_expr(r.record, env, p) {
                Ok(_) => {},
                Err(es) => {
                    assert forall|k: int| 0 <= k < es.len() implies path.is_prefix_of(
                        (#[trigger] es[k]).path,
                    ) by {
                        lemma_prefix_trans(path, p, es[k].path);
                    }
                },
            }
        },
    }
}

proof fn lemma_prefix_push(path: Seq<Seg>, s: Seg)
    ensures
        path.is_prefix_of(path.push(s)),
{
    assert(path =~= path.push(s).subrange(0, path.len() as int));
}

proof fn lemma_chain_elems_errors(es: Seq<Expr>, env: Map<Seq<char>, TypeV>, path: Seq<Seg>)
    ensures
        chain_elems(es, env, path) matches Err(l) ==> l.len() >= 1 && (forall|k: int|
            0 <= k < l.len() ==> path.is_prefix_of((#[trigger] l[k]).path)),
    decreases es,
{
    if es.len() > 0 {
        let p = path.push(Seg::ChainN((es.len() - 1) as usize));
        lemma_prefix_push(path, Seg::ChainN((es.len() - 1) as usize));
        lemma_chain_elems_errors(es.drop_last(), env, path);
        lemma_check_expr_errors(es.last(), env, p);
        let prev = chain_elems(es.drop_last(), env, path);
        let cur = check_expr(es.last(), env, p);
        match (prev, cur) {
            (Err(a), Err(b)) => {
                assert forall|k: int| 0 <= k < (a + b).len() implies path.is_prefix_of(
                    (#[trigger] (a + b)[k]).path,
                ) by {
                    if k >= a.len() {
                        lemma_prefix_trans(path, p, b[k - a.len()].path);
                    }
                }
            },
            (Err(a), Ok(_)) => {},
            (Ok(_), Err(b)) => {
                assert forall|k: int| 0 <= k < b.len() implies path.is_prefix_of(
                    (#[trigger] b[k]).path,
                ) by {
                    lemma_prefix_trans(path, p, b[k].path);
                }
            },
            (Ok(_), Ok(_)) => {},
        }
    }
}

/// Checks an expression tree against a typing environment from the root
/// path: either the tree's inferred type or every error found, each at the
/// exact route taken to reach its node. The environment is read, never
/// changed.
pub fn typecheck(expr: &Expr, ctx: &mut TypeContext) -> (r: Check)
    requires
        old(ctx).wf(),
    ensures
        *final(ctx) == *old(ctx),
        r@ == check_expr(*expr, old(ctx)@, Seq::<Seg>::empty()),
        r.0 matches Ok(t) ==> t.wf(),
{
    let path = Vec::new();
    expr.check(path, ctx)
}

} // verus!
