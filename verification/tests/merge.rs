use figa::MergeError;
use figa::schema::{Field, Policy, ScalarKind, Slot, Ty};
use figa::seed::merge_value;
use figa::source::{Source, SourceEntry};
use figa::value::{MapEntry, Scalar, Value};
use figa::{UnitStructVisitor, merge_layer};

fn text(s: &str) -> Value {
    Value::Text(s.to_string())
}

fn stext(s: &str) -> Source {
    Source::Text(s.to_string())
}

fn entry(k: &str, v: Value) -> MapEntry {
    MapEntry {
        key: k.to_string(),
        value: v,
    }
}

fn sentry(k: &str, v: Source) -> SourceEntry {
    SourceEntry {
        key: k.to_string(),
        value: v,
    }
}

fn field(n: &str, p: Policy, t: Ty) -> Field {
    Field {
        name: n.to_string(),
        policy: p,
        ty: t,
    }
}

fn item_ty() -> Ty {
    Ty::Record(vec![
        field("foo", Policy::Default, Ty::Text),
        field("bar", Policy::Append, Ty::Text),
    ])
}

fn item(foo: &str, bar: &str) -> Value {
    Value::Record(vec![text(foo), text(bar)])
}

fn config_ty() -> Ty {
    Ty::Record(vec![
        field("a", Policy::Default, Ty::Int),
        field("b", Policy::Default, Ty::Text),
        field("c", Policy::Default, Ty::Sequence(Box::new(Ty::Int))),
        field("d", Policy::Replace, Ty::Sequence(Box::new(Ty::Text))),
        field("e", Policy::Update, Ty::Table(Box::new(item_ty()))),
        field("f", Policy::Append, Ty::Optional(Box::new(Ty::Text))),
    ])
}

fn start_config() -> Value {
    Value::Record(vec![
        Value::Int(1),
        text("qwe"),
        Value::List(vec![Value::Int(1), Value::Int(2), Value::Int(3)]),
        Value::List(vec![text("asd"), text("zxc")]),
        Value::Table(vec![
            entry("ccc", item("jkl", "xcv")),
            entry("aaa", item("pop", "nop")),
        ]),
        Value::OptNone,
    ])
}

#[test]
fn scalar_layer_changes_only_its_field() {
    let ty = config_ty();
    let mut cfg = start_config();
    let layer = Source::Table(vec![sentry("a", Source::Int(2))]);
    merge_layer(&mut cfg, &ty, &layer).unwrap();
    let mut expected = start_config();
    if let Value::Record(fields) = &mut expected {
        fields[0] = Value::Int(2);
    }
    assert_eq!(cfg, expected);
}

#[test]
fn replace_discards_old_sequence() {
    let ty = config_ty();
    let mut cfg = start_config();
    let layer = Source::Table(vec![sentry(
        "d",
        Source::List(vec![stext("qwe"), stext("bbb"), stext("uio")]),
    )]);
    merge_layer(&mut cfg, &ty, &layer).unwrap();
    let mut expected = start_config();
    if let Value::Record(fields) = &mut expected {
        fields[3] = Value::List(vec![text("qwe"), text("bbb"), text("uio")]);
    }
    assert_eq!(cfg, expected);
}

#[test]
fn nested_update_appends_string_and_keeps_neighbours() {
    let ty = config_ty();
    let mut cfg = start_config();
    let layer = Source::Table(vec![sentry(
        "e",
        Source::Table(vec![sentry(
            "ccc",
            Source::Table(vec![sentry("bar", stext("zxc"))]),
        )]),
    )]);
    merge_layer(&mut cfg, &ty, &layer).unwrap();
    let mut expected = start_config();
    if let Value::Record(fields) = &mut expected {
        fields[4] = Value::Table(vec![
            entry("ccc", item("jkl", "xcvzxc")),
            entry("aaa", item("pop", "nop")),
        ]);
    }
    assert_eq!(cfg, expected);
}

#[test]
fn layered_scenario_end_to_end() {
    let ty = config_ty();
    let mut cfg = start_config();

    merge_layer(
        &mut cfg,
        &ty,
        &Source::Table(vec![sentry("a", Source::Int(2))]),
    )
    .unwrap();
    merge_layer(
        &mut cfg,
        &ty,
        &Source::Table(vec![sentry("b", stext("asd"))]),
    )
    .unwrap();
    merge_layer(
        &mut cfg,
        &ty,
        &Source::Table(vec![sentry(
            "c",
            Source::List(vec![Source::Int(4), Source::Int(5), Source::Int(6)]),
        )]),
    )
    .unwrap();
    merge_layer(
        &mut cfg,
        &ty,
        &Source::Table(vec![sentry(
            "d",
            Source::List(vec![stext("qwe"), stext("bbb"), stext("uio")]),
        )]),
    )
    .unwrap();
    merge_layer(
        &mut cfg,
        &ty,
        &Source::Table(vec![sentry(
            "e",
            Source::Table(vec![sentry(
                "bbb",
                Source::Table(vec![sentry("foo", stext("new")), sentry("bar", stext("key"))]),
            )]),
        )]),
    )
    .unwrap();
    merge_layer(
        &mut cfg,
        &ty,
        &Source::Table(vec![sentry(
            "e",
            Source::Table(vec![sentry(
                "ccc",
                Source::Table(vec![sentry("bar", stext("zxc"))]),
            )]),
        )]),
    )
    .unwrap();
    merge_layer(
        &mut cfg,
        &ty,
        &Source::Table(vec![sentry(
            "f",
            Source::Present(Box::new(stext("qwe"))),
        )]),
    )
    .unwrap();

    let expected = Value::Record(vec![
        Value::Int(2),
        text("asd"),
        Value::List(vec![
            Value::Int(1),
            Value::Int(2),
            Value::Int(3),
            Value::Int(4),
            Value::Int(5),
            Value::Int(6),
        ]),
        Value::List(vec![text("qwe"), text("bbb"), text("uio")]),
        Value::Table(vec![
            entry("ccc", item("jkl", "xcvzxc")),
            entry("aaa", item("pop", "nop")),
            entry("bbb", item("new", "key")),
        ]),
        Value::OptSome(Box::new(text("qwe"))),
    ]);
    assert_eq!(cfg, expected);
}

#[test]
fn string_append_concatenates_in_order() {
    let mut v = text("abc");
    merge_value(&mut v, &Ty::Text, Policy::Append, &stext("def")).unwrap();
    assert_eq!(v, text("abcdef"));
}

#[test]
fn sequence_append_pushes_all_pulled_elements() {
    let ty = Ty::Sequence(Box::new(Ty::Int));
    let mut v = Value::List(vec![Value::Int(10), Value::Int(20)]);
    let layer = Source::List(vec![Source::Int(1), Source::Int(2)]);
    merge_value(&mut v, &ty, Policy::Append, &layer).unwrap();
    assert_eq!(
        v,
        Value::List(vec![
            Value::Int(10),
            Value::Int(20),
            Value::Int(1),
            Value::Int(2)
        ])
    );
}

#[test]
fn sequence_update_grows_to_longer_length() {
    let ty = Ty::Sequence(Box::new(Ty::Int));
    let mut v = Value::List(vec![Value::Int(10), Value::Int(20)]);
    let layer = Source::List(vec![
        Source::Int(1),
        Source::Int(2),
        Source::Int(3),
        Source::Int(4),
    ]);
    merge_value(&mut v, &ty, Policy::Update, &layer).unwrap();
    assert_eq!(
        v,
        Value::List(vec![
            Value::Int(1),
            Value::Int(2),
            Value::Int(3),
            Value::Int(4)
        ])
    );
}

#[test]
fn sequence_update_keeps_tail_of_longer_value() {
    let ty = Ty::Sequence(Box::new(Ty::Int));
    let mut v = Value::List(vec![Value::Int(10), Value::Int(20), Value::Int(30)]);
    let layer = Source::List(vec![Source::Int(1)]);
    merge_value(&mut v, &ty, Policy::Update, &layer).unwrap();
    assert_eq!(
        v,
        Value::List(vec![Value::Int(1), Value::Int(20), Value::Int(30)])
    );
}

#[test]
fn sequence_update_merges_record_elements_in_place() {
    let ty = Ty::Sequence(Box::new(item_ty()));
    let mut v = Value::List(vec![item("a", "b"), item("c", "d")]);
    let layer = Source::List(vec![Source::Table(vec![sentry("bar", stext("x"))])]);
    merge_value(&mut v, &ty, Policy::Update, &layer).unwrap();
    assert_eq!(v, Value::List(vec![item("a", "bx"), item("c", "d")]));
}

#[test]
fn map_update_merges_matched_and_inserts_new() {
    let ty = Ty::Table(Box::new(item_ty()));
    let mut v = Value::Table(vec![entry("k1", item("f1", "b1"))]);
    let layer = Source::Table(vec![
        sentry("k1", Source::Table(vec![sentry("bar", stext("+"))])),
        sentry(
            "k2",
            Source::Table(vec![sentry("foo", stext("f2")), sentry("bar", stext("b2"))]),
        ),
    ]);
    merge_value(&mut v, &ty, Policy::Update, &layer).unwrap();
    assert_eq!(
        v,
        Value::Table(vec![
            entry("k1", item("f1", "b1+")),
            entry("k2", item("f2", "b2")),
        ])
    );
}

#[test]
fn map_update_with_subset_keys_touches_nothing_else() {
    let ty = Ty::Table(Box::new(item_ty()));
    let mut v = Value::Table(vec![
        entry("k1", item("f1", "b1")),
        entry("k2", item("f2", "b2")),
    ]);
    let layer = Source::Table(vec![sentry(
        "k1",
        Source::Table(vec![sentry("foo", stext("new"))]),
    )]);
    merge_value(&mut v, &ty, Policy::Update, &layer).unwrap();
    assert_eq!(
        v,
        Value::Table(vec![
            entry("k1", item("new", "b1")),
            entry("k2", item("f2", "b2")),
        ])
    );
}

#[test]
fn map_append_overwrites_matched_wholesale() {
    let ty = Ty::Table(Box::new(item_ty()));
    let mut v = Value::Table(vec![entry("k1", item("f1", "b1"))]);
    let layer = Source::Table(vec![sentry(
        "k1",
        Source::Table(vec![sentry("foo", stext("f9")), sentry("bar", stext("b9"))]),
    )]);
    merge_value(&mut v, &ty, Policy::Append, &layer).unwrap();
    assert_eq!(v, Value::Table(vec![entry("k1", item("f9", "b9"))]));
}

#[test]
fn set_append_inserts_new_and_skips_present() {
    let ty = Ty::SetOf(ScalarKind::Text);
    let mut v = Value::SetOf(vec![
        Scalar::Text("a".to_string()),
        Scalar::Text("b".to_string()),
    ]);
    let layer = Source::List(vec![stext("b"), stext("c"), stext("c")]);
    merge_value(&mut v, &ty, Policy::Append, &layer).unwrap();
    assert_eq!(
        v,
        Value::SetOf(vec![
            Scalar::Text("a".to_string()),
            Scalar::Text("b".to_string()),
            Scalar::Text("c".to_string()),
        ])
    );
}

#[test]
fn optional_absent_never_clears() {
    let ty = Ty::Optional(Box::new(Ty::Int));
    let mut v = Value::OptSome(Box::new(Value::Int(7)));
    merge_value(&mut v, &ty, Policy::Append, &Source::Absent).unwrap();
    assert_eq!(v, Value::OptSome(Box::new(Value::Int(7))));
    merge_value(&mut v, &ty, Policy::Update, &Source::Absent).unwrap();
    assert_eq!(v, Value::OptSome(Box::new(Value::Int(7))));
}

#[test]
fn optional_present_fills_and_replaces() {
    let ty = Ty::Optional(Box::new(Ty::Int));
    let mut v = Value::OptNone;
    merge_value(
        &mut v,
        &ty,
        Policy::Update,
        &Source::Present(Box::new(Source::Int(5))),
    )
    .unwrap();
    assert_eq!(v, Value::OptSome(Box::new(Value::Int(5))));
    merge_value(
        &mut v,
        &ty,
        Policy::Append,
        &Source::Present(Box::new(Source::Int(9))),
    )
    .unwrap();
    assert_eq!(v, Value::OptSome(Box::new(Value::Int(9))));
}

#[test]
fn optional_replace_can_clear() {
    let ty = Ty::Optional(Box::new(Ty::Int));
    let mut v = Value::OptSome(Box::new(Value::Int(7)));
    merge_value(&mut v, &ty, Policy::Replace, &Source::Absent).unwrap();
    assert_eq!(v, Value::OptNone);
}

#[test]
fn record_positional_prefix_updates_first_fields() {
    let ty = config_ty();
    let mut cfg = start_config();
    let layer = Source::List(vec![Source::Int(9), stext("zz")]);
    merge_layer(&mut cfg, &ty, &layer).unwrap();
    let mut expected = start_config();
    if let Value::Record(fields) = &mut expected {
        fields[0] = Value::Int(9);
        fields[1] = text("zz");
    }
    assert_eq!(cfg, expected);
}

#[test]
fn repeated_identifier_applies_policy_twice() {
    let ty = item_ty();
    let mut v = item("f", "b");
    let layer = Source::Table(vec![sentry("bar", stext("1")), sentry("bar", stext("2"))]);
    merge_layer(&mut v, &ty, &layer).unwrap();
    assert_eq!(v, item("f", "b12"));
}

#[test]
fn tuple_record_strict_arity_merges() {
    let ty = Ty::Tuple(vec![
        Slot {
            policy: Policy::Default,
            ty: Ty::Int,
        },
        Slot {
            policy: Policy::Append,
            ty: Ty::Text,
        },
    ]);
    let mut v = Value::Record(vec![Value::Int(1), text("x")]);
    let layer = Source::List(vec![Source::Int(2), stext("y")]);
    merge_layer(&mut v, &ty, &layer).unwrap();
    assert_eq!(v, Value::Record(vec![Value::Int(2), text("xy")]));
}

#[test]
fn unit_record_accepts_unit_token() {
    assert!(UnitStructVisitor::visit_unit(&Source::Unit).is_ok());
    let mut v = Value::Unit;
    merge_layer(&mut v, &Ty::Unit, &Source::Unit).unwrap();
    assert_eq!(v, Value::Unit);
}

#[test]
fn unit_source_is_noop_on_records() {
    let ty = config_ty();
    let mut cfg = start_config();
    merge_layer(&mut cfg, &ty, &Source::Unit).unwrap();
    assert_eq!(cfg, start_config());
}

#[test]
fn decode_builds_fresh_record() {
    let src = Source::Table(vec![sentry("foo", stext("a")), sentry("bar", stext("b"))]);
    let v = figa::replace::decode(&item_ty(), &src).unwrap();
    assert_eq!(v, item("a", "b"));
}

#[test]
fn resolver_structs_apply_their_policies() {
    let mut v = text("a");
    figa::replace::Replace::apply(&mut v, &Ty::Text, &stext("b")).unwrap();
    assert_eq!(v, text("b"));
    figa::append::Append::apply(&mut v, &Ty::Text, &stext("c")).unwrap();
    assert_eq!(v, text("bc"));
    figa::update::Update::apply(&mut v, &Ty::Text, &stext("d")).unwrap();
    assert_eq!(v, text("d"));
    figa::default::Default::apply(&mut v, &Ty::Text, &stext("e")).unwrap();
    assert_eq!(v, text("e"));
}

#[test]
fn checkers_accept_the_scenario_data() {
    let ty = config_ty();
    assert!(figa::schema::check_schema(&ty));
    assert!(figa::value::check_value(&start_config(), &ty));
    assert!(!figa::value::check_value(&Value::Int(1), &Ty::Text));
    let dup = Ty::Record(vec![
        field("x", Policy::Default, Ty::Int),
        field("x", Policy::Default, Ty::Int),
    ]);
    assert!(!figa::schema::check_schema(&dup));
    let bad_policy = Ty::Record(vec![field("x", Policy::Append, Ty::Int)]);
    assert!(!figa::schema::check_schema(&bad_policy));
    assert!(matches!(
        UnitStructVisitor::visit_unit(&Source::Int(1)),
        Err(MergeError::MalformedToken)
    ));
}

#[test]
fn empty_layer_is_noop() {
    let ty = config_ty();
    let mut cfg = start_config();
    merge_layer(&mut cfg, &ty, &Source::Table(vec![])).unwrap();
    assert_eq!(cfg, start_config());
}

#[test]
fn bool_field_replaces_by_default() {
    let mut v = Value::Bool(false);
    merge_layer(&mut v, &Ty::Bool, &Source::Bool(true)).unwrap();
    assert_eq!(v, Value::Bool(true));
}

#[test]
fn record_replace_decodes_fresh_value() {
    let ty = Ty::Record(vec![field("inner", Policy::Replace, item_ty())]);
    let mut v = Value::Record(vec![item("old", "old")]);
    let layer = Source::Table(vec![sentry(
        "inner",
        Source::Table(vec![sentry("bar", stext("nb")), sentry("foo", stext("nf"))]),
    )]);
    merge_layer(&mut v, &ty, &layer).unwrap();
    assert_eq!(v, Value::Record(vec![item("nf", "nb")]));
}

#[test]
fn nested_sequence_append_pushes_the_whole_list() {
    let ty = Ty::Sequence(Box::new(Ty::Sequence(Box::new(Ty::Int))));
    let mut v = Value::List(vec![Value::List(vec![Value::Int(1), Value::Int(2)])]);
    let layer = Source::List(vec![Source::List(vec![Source::Int(7)])]);
    merge_value(&mut v, &ty, Policy::Append, &layer).unwrap();
    assert_eq!(
        v,
        Value::List(vec![
            Value::List(vec![Value::Int(1), Value::Int(2)]),
            Value::List(vec![Value::Int(7)]),
        ])
    );
}

#[test]
fn nested_sequence_update_re_merges_elements_positionally() {
    let ty = Ty::Sequence(Box::new(Ty::Sequence(Box::new(Ty::Int))));
    let mut v = Value::List(vec![Value::List(vec![Value::Int(1), Value::Int(2)])]);
    let layer = Source::List(vec![Source::List(vec![Source::Int(7)])]);
    merge_value(&mut v, &ty, Policy::Update, &layer).unwrap();
    assert_eq!(
        v,
        Value::List(vec![Value::List(vec![Value::Int(7), Value::Int(2)])])
    );
}

#[test]
fn optional_record_merges_present_value_fieldwise() {
    let ty = Ty::Optional(Box::new(item_ty()));
    let mut v = Value::OptSome(Box::new(item("f", "b")));
    let layer = Source::Present(Box::new(Source::Table(vec![sentry("bar", stext("x"))])));
    merge_value(&mut v, &ty, Policy::Update, &layer).unwrap();
    assert_eq!(v, Value::OptSome(Box::new(item("f", "bx"))));
}

#[test]
fn set_decode_drops_duplicates() {
    let ty = Ty::SetOf(ScalarKind::Int);
    let src = Source::List(vec![Source::Int(1), Source::Int(2), Source::Int(1)]);
    let v = figa::replace::decode(&ty, &src).unwrap();
    assert_eq!(v, Value::SetOf(vec![Scalar::Int(1), Scalar::Int(2)]));
}

#[test]
fn table_merges_under_default_by_appending() {
    let ty = Ty::Table(Box::new(Ty::Int));
    let mut v = Value::Table(vec![entry("a", Value::Int(1))]);
    let layer = Source::Table(vec![
        sentry("a", Source::Int(5)),
        sentry("b", Source::Int(2)),
    ]);
    merge_layer(&mut v, &ty, &layer).unwrap();
    assert_eq!(
        v,
        Value::Table(vec![entry("a", Value::Int(5)), entry("b", Value::Int(2))])
    );
}
