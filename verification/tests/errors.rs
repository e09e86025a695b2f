use figa::MergeError;
use figa::merge_layer;
use figa::schema::{Field, Policy, Slot, Ty};
use figa::seed::merge_value;
use figa::source::{Source, SourceEntry};
use figa::value::{MapEntry, Value};

fn named(k: &str, v: Source) -> SourceEntry {
    SourceEntry {
        key: k.to_string(),
        value: v,
    }
}

fn pair_ty() -> Ty {
    Ty::Record(vec![
        Field {
            name: "left".to_string(),
            policy: Policy::Default,
            ty: Ty::Int,
        },
        Field {
            name: "right".to_string(),
            policy: Policy::Default,
            ty: Ty::Text,
        },
    ])
}

fn pair(l: i64, r: &str) -> Value {
    Value::Record(vec![Value::Int(l), Value::Text(r.to_string())])
}

#[test]
fn unknown_field_aborts() {
    let ty = pair_ty();
    let mut v = pair(1, "a");
    let layer = Source::Table(vec![named("middle", Source::Int(2))]);
    assert_eq!(
        merge_layer(&mut v, &ty, &layer),
        Err(MergeError::UnknownField)
    );
}

#[test]
fn wrong_shape_is_malformed() {
    let ty = pair_ty();
    let mut v = pair(1, "a");
    let layer = Source::Table(vec![named("left", Source::Text("oops".to_string()))]);
    assert_eq!(
        merge_layer(&mut v, &ty, &layer),
        Err(MergeError::MalformedToken)
    );
    let mut n = Value::Int(1);
    assert_eq!(
        merge_value(&mut n, &Ty::Int, Policy::Replace, &Source::Bool(true)),
        Err(MergeError::MalformedToken)
    );
}

#[test]
fn positional_overflow_is_arity_mismatch() {
    let ty = pair_ty();
    let mut v = pair(1, "a");
    let layer = Source::List(vec![
        Source::Int(2),
        Source::Text("b".to_string()),
        Source::Int(3),
    ]);
    assert_eq!(
        merge_layer(&mut v, &ty, &layer),
        Err(MergeError::ArityMismatch)
    );
}

#[test]
fn tuple_strict_arity_rejects_short_input() {
    let ty = Ty::Tuple(vec![
        Slot {
            policy: Policy::Default,
            ty: Ty::Int,
        },
        Slot {
            policy: Policy::Default,
            ty: Ty::Int,
        },
    ]);
    let mut v = Value::Record(vec![Value::Int(1), Value::Int(2)]);
    let layer = Source::List(vec![Source::Int(9)]);
    assert_eq!(
        merge_layer(&mut v, &ty, &layer),
        Err(MergeError::ArityMismatch)
    );
}

#[test]
fn failure_keeps_earlier_fields_merged() {
    let ty = pair_ty();
    let mut v = pair(1, "a");
    let layer = Source::Table(vec![
        named("left", Source::Int(2)),
        named("right", Source::Bool(false)),
    ]);
    assert_eq!(
        merge_layer(&mut v, &ty, &layer),
        Err(MergeError::MalformedToken)
    );
    assert_eq!(v, pair(2, "a"));
}

#[test]
fn record_decode_requires_every_field() {
    let ty = Ty::Table(Box::new(pair_ty()));
    let mut v = Value::Table(vec![]);
    let layer = Source::Table(vec![named(
        "fresh",
        Source::Table(vec![named("left", Source::Int(1))]),
    )]);
    assert_eq!(
        merge_value(&mut v, &ty, Policy::Update, &layer),
        Err(MergeError::MalformedToken)
    );
    let full = Source::Table(vec![named(
        "fresh",
        Source::Table(vec![
            named("left", Source::Int(1)),
            named("right", Source::Text("r".to_string())),
        ]),
    )]);
    merge_value(&mut v, &ty, Policy::Update, &full).unwrap();
    assert_eq!(
        v,
        Value::Table(vec![MapEntry {
            key: "fresh".to_string(),
            value: pair(1, "r"),
        }])
    );
}

#[test]
fn table_failure_keeps_earlier_entries_merged() {
    let ty = Ty::Table(Box::new(pair_ty()));
    let mut v = Value::Table(vec![
        MapEntry {
            key: "x".to_string(),
            value: pair(1, "a"),
        },
        MapEntry {
            key: "y".to_string(),
            value: pair(2, "b"),
        },
    ]);
    let layer = Source::Table(vec![
        named("x", Source::Table(vec![named("left", Source::Int(9))])),
        named("y", Source::Table(vec![named("left", Source::Bool(true))])),
    ]);
    assert_eq!(
        merge_value(&mut v, &ty, Policy::Update, &layer),
        Err(MergeError::MalformedToken)
    );
    assert_eq!(
        v,
        Value::Table(vec![
            MapEntry {
                key: "x".to_string(),
                value: pair(9, "a"),
            },
            MapEntry {
                key: "y".to_string(),
                value: pair(2, "b"),
            },
        ])
    );
}

#[test]
fn positional_failure_keeps_earlier_slots_merged() {
    let ty = pair_ty();
    let mut v = pair(1, "a");
    let layer = Source::List(vec![Source::Int(7), Source::Int(8)]);
    assert_eq!(
        merge_layer(&mut v, &ty, &layer),
        Err(MergeError::MalformedToken)
    );
    assert_eq!(v, pair(7, "a"));
}
