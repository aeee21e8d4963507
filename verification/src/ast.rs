use vstd::prelude::*;

use crate::ident::Ident;

verus! {

/// The algebraic grammar of expressions. Each node exclusively owns its
/// children, so a tree is finite and acyclic by construction.
#[derive(Debug, PartialEq)]
pub enum Expr {
    /// An absent, unfilled expression; always an error when type-checked.
    Empty,
    LitBool(Literal<bool>),
    LitNumber(Literal<i32>),
    LitText(Literal<String>),
    /// Logical negation of a sub-expression.
    Not(Box<Not>),
    /// A conditional with no "else" branch.
    If(Box<If>),
    /// Sequential composition, order-significant.
    Chain(Chain),
    /// A name to look up in the environment.
    VariableRef(VariableRef),
    /// Field access on an expression that must check to a record type.
    RecordRef(Box<RecordRef>),
}

/// A self-typed leaf carrying a constant.
#[derive(Debug, PartialEq)]
pub struct Literal<T> {
    pub value: T,
}

#[derive(Debug, PartialEq)]
pub struct Not {
    pub not: Expr,
}

#[derive(Debug, PartialEq)]
pub struct If {
    pub condition: Expr,
    pub consequence: Expr,
}

/// After construction a chain is a flat ordered sequence. Its wire form
/// instead splits the members into three named groups — an ordered prefix
/// `left`, exactly one pivot `center`, and an ordered suffix `right` — which
/// [`Chain::from_fields`] flattens into `left ++ [center] ++ right`.
#[derive(Debug, PartialEq)]
pub struct Chain {
    pub chain: Vec<Expr>,
}

#[derive(Debug, PartialEq)]
pub struct VariableRef {
    pub identifier: Ident,
}

#[derive(Debug, PartialEq)]
pub struct RecordRef {
    pub identifier: Ident,
    pub record: Expr,
}

/// The three field names a chain's wire form may carry.
#[derive(Debug, PartialEq, Eq, Clone, Copy)]
pub enum PivotField {
    Right,
    Left,
    Center,
}

/// One field of a chain's wire form, in the order the fields appeared.
#[derive(Debug, PartialEq)]
pub enum ChainField {
    Left(Vec<Expr>),
    Center(Expr),
    Right(Vec<Expr>),
}

/// Why a chain could not be built from its wire form.
#[derive(Debug, PartialEq, Eq, Clone, Copy)]
pub enum ChainError {
    DuplicateField(PivotField),
    MissingField(PivotField),
}

/// Scans wire-form fields in order into the three groups, rejecting a group
/// given twice with the first duplicate encountered.
pub open spec fn scan_fields(
    fields: Seq<ChainField>,
    left: Option<Seq<Expr>>,
    center: Option<Expr>,
    right: Option<Seq<Expr>>,
) -> Result<(Option<Seq<Expr>>, Option<Expr>, Option<Seq<Expr>>), ChainError>
    decreases fields.len(),
{
    if fields.len() == 0 {
        Ok((left, center, right))
    } else {
        match fields[0] {
            ChainField::Left(l) => if left is Some {
                Err(ChainError::DuplicateField(PivotField::Left))
            } else {
                scan_fields(fields.drop_first(), Some(l@), center, right)
            },
            ChainField::Center(c) => if center is Some {
                Err(ChainError::DuplicateField(PivotField::Center))
            } else {
                scan_fields(fields.drop_first(), left, Some(c), right)
            },
            ChainField::Right(r) => if right is Some {
                Err(ChainError::DuplicateField(PivotField::Right))
            } else {
                scan_fields(fields.drop_first(), left, center, Some(r@))
            },
        }
    }
}

/// The flat member sequence a chain's wire form denotes: `left ++ [center]
/// ++ right`, or the first construction error. A duplicated group fails with
/// the first duplicate in field order; a missing group fails checking `left`,
/// then `right`, then `center`.
pub open spec fn from_fields_spec(fields: Seq<ChainField>) -> Result<Seq<Expr>, ChainError> {
    match scan_fields(fields, None, None, None) {
        Err(e) => Err(e),
        Ok((left, center, right)) => match left {
            None => Err(ChainError::MissingField(PivotField::Left)),
            Some(l) => match right {
                None => Err(ChainError::MissingField(PivotField::Right)),
                Some(r) => match center {
                    None => Err(ChainError::MissingField(PivotField::Center)),
                    Some(c) => Ok(l + seq![c] + r),
                },
            },
        },
    }
}

impl Chain {
    /// Builds a chain from the fields of its wire form: every group must be
    /// given exactly once, and the members are flattened into the single
    /// ordered sequence `left ++ [center] ++ right`. A malformed shape fails
    /// here, at construction, so the type-checker never sees it.
    #[verifier::loop_isolation(false)]
    pub fn from_fields(fields: Vec<ChainField>) -> (r: Result<Chain, ChainError>)
        ensures
            match r {
                Ok(c) => from_fields_spec(fields@) == Ok::<Seq<Expr>, ChainError>(c.chain@),
                Err(e) => from_fields_spec(fields@) == Err::<Seq<Expr>, ChainError>(e),
            },
    {
        let ghost all_fields = fields@;
        let mut rest_fields = fields;
        let mut left: Option<Vec<Expr>> = None;
        let mut center: Option<Expr> = None;
        let mut right: Option<Vec<Expr>> = None;
        while rest_fields.len() > 0
            invariant
                scan_fields(all_fields, None, None, None) == scan_fields(
                    rest_fields@,
                    match left { Some(l) => Some(l@), None => None },
                    center,
                    match right { Some(r) => Some(r@), None => None },
                ),
            decreases rest_fields.len(),
        {
            let ghost pre = rest_fields@;
            let field = rest_fields.remove(0);
            proof {
                assert(pre.remove(0) =~= pre.drop_first());
            }
            match field {
                ChainField::Left(l) => {
                    if left.is_some() {
                        return Err(ChainError::DuplicateField(PivotField::Left));
                    }
                    left = Some(l);
                }
                ChainField::Center(c) => {
                    if center.is_some() {
                        return Err(ChainError::DuplicateField(PivotField::Center));
                    }
                    center = Some(c);
                }
                ChainField::Right(r) => {
                    if right.is_some() {
                        return Err(ChainError::DuplicateField(PivotField::Right));
                    }
                    right = Some(r);
                }
            }
        }
        let mut flat = match left {
            Some(l) => l,
            None => {
                return Err(ChainError::MissingField(PivotField::Left));
            }
        };
        let mut rest = match right {
            Some(r) => r,
            None => {
                return Err(ChainError::MissingField(PivotField::Right));
            }
        };
        let pivot = match center {
            Some(c) => c,
            None => {
                return Err(ChainError::MissingField(PivotField::Center));
            }
        };
        let ghost lv = flat@;
        let ghost rv = rest@;
        flat.push(pivot);
        flat.append(&mut rest);
        proof {
            assert(flat@ =~= lv + seq![pivot] + rv);
        }
        Ok(Chain { chain: flat })
    }
}

/// Whether two wire fields name the same group.
pub open spec fn same_group(a: ChainField, b: ChainField) -> bool {
    (a is Left && b is Left) || (a is Center && b is Center) || (a is Right && b is Right)
}

/// Flattening law: a wire form that gives `left`, `center` and `right` each
/// exactly once denotes the single ordered sequence `left ++ [center] ++
/// right`.
pub proof fn lemma_chain_flatten(lv: Vec<Expr>, pivot: Expr, rv: Vec<Expr>)
    ensures
        from_fields_spec(
            seq![ChainField::Left(lv), ChainField::Center(pivot), ChainField::Right(rv)],
        ) == Ok::<Seq<Expr>, ChainError>(lv@ + seq![pivot] + rv@),
{
    let fs = seq![ChainField::Left(lv), ChainField::Center(pivot), ChainField::Right(rv)];
    let fs1 = seq![ChainField::Center(pivot), ChainField::Right(rv)];
    let fs2 = seq![ChainField::Right(rv)];
    let fs3 = Seq::<ChainField>::empty();
    assert(fs.drop_first() =~= fs1);
    assert(fs1.drop_first() =~= fs2);
    assert(fs2.drop_first() =~= fs3);
    assert(scan_fields(fs, None, None, None) == scan_fields(fs1, Some(lv@), None, None));
    assert(scan_fields(fs1, Some(lv@), None, None) == scan_fields(
        fs2,
        Some(lv@),
        Some(pivot),
        None,
    ));
    assert(scan_fields(fs2, Some(lv@), Some(pivot), None) == scan_fields(
        fs3,
        Some(lv@),
        Some(pivot),
        Some(rv@),
    ));
    assert(scan_fields(fs3, Some(lv@), Some(pivot), Some(rv@)) == Ok::<
        (Option<Seq<Expr>>, Option<Expr>, Option<Seq<Expr>>),
        ChainError,
    >((Some(lv@), Some(pivot), Some(rv@))));
}

/// A scan whose remaining fields name a group that is already filled always
/// fails.
proof fn lemma_scan_occupied_fails(
    fields: Seq<ChainField>,
    left: Option<Seq<Expr>>,
    center: Option<Expr>,
    right: Option<Seq<Expr>>,
    k: int,
)
    requires
        0 <= k < fields.len(),
        (fields[k] is Left && left is Some) || (fields[k] is Center && center is Some) || (
        fields[k] is Right && right is Some),
    ensures
        scan_fields(fields, left, center, right) is Err,
    decreases k,
{
    if k > 0 {
        assert(fields.drop_first()[k - 1] == fields[k]);
        match fields[0] {
            ChainField::Left(l) => {
                if left is None {
                    lemma_scan_occupied_fails(fields.drop_first(), Some(l@), center, right, k - 1);
                }
            },
            ChainField::Center(c) => {
                if center is None {
                    lemma_scan_occupied_fails(fields.drop_first(), left, Some(c), right, k - 1);
                }
            },
            ChainField::Right(r) => {
                if right is None {
                    lemma_scan_occupied_fails(fields.drop_first(), left, center, Some(r@), k - 1);
                }
            },
        }
    }
}

/// A scan of fields that give one group twice always fails.
proof fn lemma_scan_duplicate_fails(
    fields: Seq<ChainField>,
    left: Option<Seq<Expr>>,
    center: Option<Expr>,
    right: Option<Seq<Expr>>,
    i: int,
    j: int,
)
    requires
        0 <= i < j < fields.len(),
        same_group(fields[i], fields[j]),
    ensures
        scan_fields(fields, left, center, right) is Err,
    decreases i,
{
    assert(fields.drop_first()[j - 1] == fields[j]);
    if i > 0 {
        assert(fields.drop_first()[i - 1] == fields[i]);
    }
    match fields[0] {
        ChainField::Left(l) => {
            if left is None {
                if i == 0 {
                    lemma_scan_occupied_fails(fields.drop_first(), Some(l@), center, right, j - 1);
                } else {
                    lemma_scan_duplicate_fails(
                        fields.drop_first(),
                        Some(l@),
                        center,
                        right,
                        i - 1,
                        j - 1,
                    );
                }
            }
        },
        ChainField::Center(c) => {
            if center is None {
                if i == 0 {
                    lemma_scan_occupied_fails(fields.drop_first(), left, Some(c), right, j - 1);
                } else {
                    lemma_scan_duplicate_fails(
                        fields.drop_first(),
                        left,
                        Some(c),
                        right,
                        i - 1,
                        j - 1,
                    );
                }
            }
        },
        ChainField::Right(r) => {
            if right is None {
                if i == 0 {
                    lemma_scan_occupied_fails(fields.drop_first(), left, center, Some(r@), j - 1);
                } else {
                    lemma_scan_duplicate_fails(
                        fields.drop_first(),
                        left,
                        center,
                        Some(r@),
                        i - 1,
                        j - 1,
                    );
                }
            }
        },
    }
}

/// Duplication law: a wire form that gives any group twice never builds a
/// chain; construction fails before the checker can see it.
pub proof fn lemma_chain_duplicate_fails(fields: Seq<ChainField>, i: int, j: int)
    requires
        0 <= i < j < fields.len(),
        same_group(fields[i], fields[j]),
    ensures
        from_fields_spec(fields) is Err,
{
    lemma_scan_duplicate_fails(fields, None, None, None, i, j);
}

} // verus!
