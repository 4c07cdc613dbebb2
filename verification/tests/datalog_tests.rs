use biscuit::datalog::{
    check_caveat, constraint_kind_check, derive_facts, id_eq, Constraint, ConstraintKind,
    DateConstraint, Fact, IntConstraint, Predicate, Rule, StrConstraint, SymbolTable, ID,
};
use biscuit::error::Error;

fn pred(name: u64, ids: Vec<ID>) -> Predicate {
    Predicate { name, ids }
}

fn fact(name: u64, ids: Vec<ID>) -> Fact {
    Fact { predicate: Predicate { name, ids } }
}

const PARENT: u64 = 0;
const ANCESTOR: u64 = 1;
const A: u64 = 10;
const B: u64 = 11;
const C: u64 = 12;

fn family_facts() -> Vec<Fact> {
    vec![
        fact(PARENT, vec![ID::Symbol(A), ID::Symbol(B)]),
        fact(PARENT, vec![ID::Symbol(B), ID::Symbol(C)]),
    ]
}

fn family_rules() -> Vec<Rule> {
    vec![
        Rule {
            head: pred(ANCESTOR, vec![ID::Variable(0), ID::Variable(1)]),
            body: vec![pred(PARENT, vec![ID::Variable(0), ID::Variable(1)])],
            constraints: vec![],
        },
        Rule {
            head: pred(ANCESTOR, vec![ID::Variable(0), ID::Variable(2)]),
            body: vec![
                pred(ANCESTOR, vec![ID::Variable(0), ID::Variable(1)]),
                pred(ANCESTOR, vec![ID::Variable(1), ID::Variable(2)]),
            ],
            constraints: vec![],
        },
    ]
}

fn contains(facts: &[Fact], name: u64, ids: &[ID]) -> bool {
    facts.iter().any(|f| {
        f.predicate.name == name && f.predicate.ids.len() == ids.len()
            && f.predicate.ids.iter().zip(ids.iter()).all(|(a, b)| id_eq(a, b))
    })
}

#[test]
fn fixed_point_derives_transitive_closure() {
    let result = derive_facts(&family_facts(), &family_rules()).unwrap();
    assert!(contains(&result, ANCESTOR, &[ID::Symbol(A), ID::Symbol(B)]));
    assert!(contains(&result, ANCESTOR, &[ID::Symbol(B), ID::Symbol(C)]));
    assert!(contains(&result, ANCESTOR, &[ID::Symbol(A), ID::Symbol(C)]));
    // two base facts plus three derived ones, each kept once
    assert_eq!(result.len(), 5);
}

#[test]
fn derivation_without_rules_returns_base() {
    let result = derive_facts(&family_facts(), &vec![]).unwrap();
    assert_eq!(result.len(), 2);
}

#[test]
fn caveat_holds_when_a_binding_exists() {
    let facts = family_facts();
    let caveat = Rule {
        head: pred(ANCESTOR, vec![ID::Variable(0)]),
        body: vec![pred(PARENT, vec![ID::Variable(0), ID::Symbol(C)])],
        constraints: vec![],
    };
    assert!(check_caveat(&facts, &caveat));
}

#[test]
fn caveat_fails_without_binding() {
    let facts = family_facts();
    let caveat = Rule {
        head: pred(ANCESTOR, vec![ID::Variable(0)]),
        body: vec![pred(PARENT, vec![ID::Variable(0), ID::Symbol(A)])],
        constraints: vec![],
    };
    assert!(!check_caveat(&facts, &caveat));
}

#[test]
fn repeated_variable_forces_equality() {
    let facts = vec![
        fact(PARENT, vec![ID::Symbol(A), ID::Symbol(A)]),
        fact(PARENT, vec![ID::Symbol(A), ID::Symbol(B)]),
    ];
    let caveat = Rule {
        head: pred(ANCESTOR, vec![ID::Variable(0)]),
        body: vec![pred(PARENT, vec![ID::Variable(0), ID::Variable(0)])],
        constraints: vec![],
    };
    assert!(check_caveat(&facts, &caveat));
    let only_distinct = vec![fact(PARENT, vec![ID::Symbol(A), ID::Symbol(B)])];
    assert!(!check_caveat(&only_distinct, &caveat));
}

#[test]
fn integer_constraints_filter_bindings() {
    let kind = ConstraintKind::Int(IntConstraint::LowerOrEqual(5));
    assert!(constraint_kind_check(&kind, &ID::Integer(5)));
    assert!(constraint_kind_check(&kind, &ID::Integer(-3)));
    assert!(!constraint_kind_check(&kind, &ID::Integer(6)));
    // a mismatched identifier kind is rejected, not an error
    assert!(!constraint_kind_check(&kind, &ID::Str("5".to_string())));

    let members = ConstraintKind::Int(IntConstraint::In(vec![1, 2, 3]));
    assert!(constraint_kind_check(&members, &ID::Integer(2)));
    assert!(!constraint_kind_check(&members, &ID::Integer(4)));
}

#[test]
fn string_constraints_filter_bindings() {
    let prefix = ConstraintKind::Str(StrConstraint::Prefix("/data/".to_string()));
    assert!(constraint_kind_check(&prefix, &ID::Str("/data/x".to_string())));
    assert!(!constraint_kind_check(&prefix, &ID::Str("/other/x".to_string())));
    assert!(!constraint_kind_check(&prefix, &ID::Integer(7)));

    let suffix = ConstraintKind::Str(StrConstraint::Suffix(".txt".to_string()));
    assert!(constraint_kind_check(&suffix, &ID::Str("a.txt".to_string())));
    assert!(!constraint_kind_check(&suffix, &ID::Str("a.zip".to_string())));

    let equal = ConstraintKind::Str(StrConstraint::Equal("abc".to_string()));
    assert!(constraint_kind_check(&equal, &ID::Str("abc".to_string())));
    assert!(!constraint_kind_check(&equal, &ID::Str("abd".to_string())));
}

#[test]
fn date_constraints_are_inclusive() {
    let before = ConstraintKind::Date(DateConstraint::Before(100));
    assert!(constraint_kind_check(&before, &ID::Date(100)));
    assert!(constraint_kind_check(&before, &ID::Date(99)));
    assert!(!constraint_kind_check(&before, &ID::Date(101)));

    let after = ConstraintKind::Date(DateConstraint::After(100));
    assert!(constraint_kind_check(&after, &ID::Date(100)));
    assert!(!constraint_kind_check(&after, &ID::Date(99)));
}

#[test]
fn constrained_caveat_filters_candidates() {
    let facts = vec![
        fact(PARENT, vec![ID::Symbol(A), ID::Integer(3)]),
        fact(PARENT, vec![ID::Symbol(A), ID::Integer(9)]),
    ];
    let caveat = Rule {
        head: pred(ANCESTOR, vec![ID::Variable(0)]),
        body: vec![pred(PARENT, vec![ID::Symbol(A), ID::Variable(0)])],
        constraints: vec![Constraint { id: 0, kind: ConstraintKind::Int(IntConstraint::Lower(5)) }],
    };
    assert!(check_caveat(&facts, &caveat));
    let high_only = vec![fact(PARENT, vec![ID::Symbol(A), ID::Integer(9)])];
    assert!(!check_caveat(&high_only, &caveat));
}

#[test]
fn symbol_table_codes_are_stable() {
    let mut table = SymbolTable::new();
    let a = table.insert(&"authority".to_string());
    let b = table.insert(&"ambient".to_string());
    let a2 = table.insert(&"authority".to_string());
    assert_eq!(a, 0);
    assert_eq!(b, 1);
    assert_eq!(a2, 0);
    assert_eq!(table.len(), 2);
    assert_eq!(table.resolve(1).unwrap(), "ambient".to_string());
    assert_eq!(table.resolve(2), Err(Error::UnknownSymbol));
}

#[test]
fn identifier_equality_is_by_value() {
    assert!(id_eq(&ID::Str("x".to_string()), &ID::Str("x".to_string())));
    assert!(!id_eq(&ID::Str("x".to_string()), &ID::Str("y".to_string())));
    assert!(!id_eq(&ID::Symbol(1), &ID::Integer(1)));
    assert!(!id_eq(&ID::Date(1), &ID::Integer(1)));
}

const REACH: u64 = 20;
const EDGE: u64 = 21;

#[test]
fn unreachable_fixed_point_reports_exhaustion() {
    // a linear reachability chain needs one derivation pass per step, so a
    // chain longer than the iteration budget cannot reach its fixed point
    let mut facts = vec![fact(REACH, vec![ID::Integer(0)])];
    for k in 0..150i64 {
        facts.push(fact(EDGE, vec![ID::Integer(k), ID::Integer(k + 1)]));
    }
    let rules = vec![Rule {
        head: pred(REACH, vec![ID::Variable(1)]),
        body: vec![
            pred(REACH, vec![ID::Variable(0)]),
            pred(EDGE, vec![ID::Variable(0), ID::Variable(1)]),
        ],
        constraints: vec![],
    }];
    assert!(matches!(derive_facts(&facts, &rules), Err(Error::ResourceExhausted)));
}

#[test]
fn reachable_fixed_point_within_budget_succeeds() {
    let mut facts = vec![fact(REACH, vec![ID::Integer(0)])];
    for k in 0..10i64 {
        facts.push(fact(EDGE, vec![ID::Integer(k), ID::Integer(k + 1)]));
    }
    let rules = vec![Rule {
        head: pred(REACH, vec![ID::Variable(1)]),
        body: vec![
            pred(REACH, vec![ID::Variable(0)]),
            pred(EDGE, vec![ID::Variable(0), ID::Variable(1)]),
        ],
        constraints: vec![],
    }];
    let result = derive_facts(&facts, &rules).unwrap();
    // 1 base reach fact, 10 edges, 10 derived reach facts
    assert_eq!(result.len(), 21);
    assert!(contains(&result, REACH, &[ID::Integer(10)]));
}
