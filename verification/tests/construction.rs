use red::ast::{Chain, ChainError, ChainField, Expr, Literal, PivotField};
use red::ident::Ident;
use red::types::{Type, TypeContext};

fn num(value: i32) -> Expr {
    Expr::LitNumber(Literal { value })
}

#[test]
fn chain_flattens_left_center_right_in_order() {
    let fields = vec![
        ChainField::Left(vec![num(1)]),
        ChainField::Center(num(2)),
        ChainField::Right(vec![num(3)]),
    ];
    let c = Chain::from_fields(fields).unwrap();
    assert_eq!(c.chain, vec![num(1), num(2), num(3)]);
}

#[test]
fn chain_flattens_any_field_order() {
    let fields = vec![
        ChainField::Right(vec![num(3), num(4)]),
        ChainField::Center(num(2)),
        ChainField::Left(vec![num(0), num(1)]),
    ];
    let c = Chain::from_fields(fields).unwrap();
    assert_eq!(c.chain, vec![num(0), num(1), num(2), num(3), num(4)]);
}

#[test]
fn chain_rejects_duplicated_left() {
    let fields = vec![
        ChainField::Left(vec![num(1)]),
        ChainField::Center(num(2)),
        ChainField::Left(vec![num(9)]),
        ChainField::Right(vec![num(3)]),
    ];
    assert_eq!(
        Chain::from_fields(fields),
        Err(ChainError::DuplicateField(PivotField::Left))
    );
}

#[test]
fn chain_rejects_duplicated_center_and_right() {
    let fields = vec![
        ChainField::Center(num(1)),
        ChainField::Center(num(2)),
    ];
    assert_eq!(
        Chain::from_fields(fields),
        Err(ChainError::DuplicateField(PivotField::Center))
    );
    let fields = vec![
        ChainField::Right(vec![]),
        ChainField::Right(vec![num(2)]),
    ];
    assert_eq!(
        Chain::from_fields(fields),
        Err(ChainError::DuplicateField(PivotField::Right))
    );
}

#[test]
fn chain_reports_missing_fields_left_right_center() {
    assert_eq!(
        Chain::from_fields(Vec::new()),
        Err(ChainError::MissingField(PivotField::Left))
    );
    assert_eq!(
        Chain::from_fields(vec![ChainField::Left(vec![num(1)])]),
        Err(ChainError::MissingField(PivotField::Right))
    );
    assert_eq!(
        Chain::from_fields(vec![
            ChainField::Left(vec![num(1)]),
            ChainField::Right(vec![num(3)]),
        ]),
        Err(ChainError::MissingField(PivotField::Center))
    );
}

#[test]
fn idents_compare_by_name() {
    assert_eq!(Ident::from_str("abc"), Ident::from_str("abc"));
    assert!(Ident::from_str("abc") != Ident::from_str("abd"));
    assert_eq!(Ident::from_str("abc").as_str(), "abc");
    let a = Ident::from_str("abc");
    assert_eq!(a.clone(), a);
}

#[test]
fn context_lookup_finds_bound_types() {
    let ctx = TypeContext {
        entries: vec![
            (Ident::from_str("a"), Type::Number),
            (Ident::from_str("b"), Type::Text),
        ],
    };
    assert_eq!(ctx.get(&Ident::from_str("a")), Some(&Type::Number));
    assert_eq!(ctx.get(&Ident::from_str("b")), Some(&Type::Text));
    assert_eq!(ctx.get(&Ident::from_str("c")), None);
}

#[test]
fn well_formedness_rejects_duplicate_keys() {
    let good = TypeContext {
        entries: vec![
            (Ident::from_str("a"), Type::Number),
            (Ident::from_str("b"), Type::Number),
        ],
    };
    assert!(good.check_wf());
    let dup = TypeContext {
        entries: vec![
            (Ident::from_str("a"), Type::Number),
            (Ident::from_str("a"), Type::Text),
        ],
    };
    assert!(!dup.check_wf());
    let nested_dup = TypeContext {
        entries: vec![(Ident::from_str("r"), Type::Record(dup))],
    };
    assert!(!nested_dup.check_wf());
}

#[test]
fn deep_clone_copies_structurally() {
    let ctx = TypeContext {
        entries: vec![(
            Ident::from_str("r"),
            Type::Record(TypeContext {
                entries: vec![(Ident::from_str("x"), Type::List(Box::new(Type::Bool)))],
            }),
        )],
    };
    assert_eq!(ctx.deep_clone(), ctx);
    let t = Type::Record(ctx);
    assert_eq!(t.deep_clone(), t);
}

#[test]
fn render_gives_canonical_strings() {
    assert_eq!(Type::Number.render(), "Number");
    assert_eq!(Type::Bool.render(), "Bool");
    assert_eq!(Type::Text.render(), "Text");
    assert_eq!(Type::Unit.render(), "Unit");
    assert_eq!(Type::List(Box::new(Type::Text)).render(), "List(Text)");
    let rec = Type::Record(TypeContext {
        entries: vec![
            (Ident::from_str("a"), Type::Bool),
            (Ident::from_str("b"), Type::List(Box::new(Type::Unit))),
        ],
    });
    assert_eq!(rec.render(), "Record {a: Bool, b: List(Unit)}");
}
