use eql::operation::{
    Modifier, Operation, OperationAdd, OperationCreate, OperationRemove, OperationShow,
};
use eql::util::to_string_vec;

#[test]
fn format() {
    let ops: Vec<(Operation, &str)> = vec![
        (Operation::Unknown, "Unknown"),
        (
            OperationAdd::new(
                to_string_vec(vec!["Science", "Engineering"]),
                vec!["Mama".into(), "Tata".into(), "Bunica Miha".into()],
                Modifier::Plain,
            )
            .into(),
            "Add Mama, Tata, and Bunica Miha to Science and Engineering",
        ),
        (
            OperationRemove::new(
                to_string_vec(vec!["Engineering"]),
                vec!["Sally".into()],
                true,
            )
            .into(),
            "Remove Sally from Engineering (fail silently)",
        ),
        (
            OperationCreate::new(to_string_vec(vec!["Sales"]), Modifier::Overwrite).into(),
            "Create Sales (overwrite if existing)",
        ),
        (
            OperationShow::new(to_string_vec(vec!["HR"]), false).into(),
            "Show HR",
        ),
    ];

    ops.iter()
        .for_each(|(op, expect)| assert_eq!(op.render(), *expect));
}

#[test]
fn modifier_accessors() {
    let add = OperationAdd::new(
        to_string_vec(vec!["HR"]),
        to_string_vec(vec!["Ana"]),
        Modifier::Plain,
    );
    assert_eq!(add.modifier(), Modifier::Plain);
    let add = add.set_modifier(Modifier::Overwrite).unwrap();
    assert_eq!(add.modifier(), Modifier::Overwrite);

    let show = OperationShow::new(to_string_vec(vec!["HR"]), false);
    assert!(show.clone().set_modifier(Modifier::Overwrite).is_none());
    let show = show.set_modifier(Modifier::FailSilently).unwrap();
    assert_eq!(show.modifier(), Modifier::FailSilently);

    let remove = OperationRemove::new(to_string_vec(vec!["HR"]), vec![], false);
    assert!(remove.clone().set_modifier(Modifier::Overwrite).is_none());
    assert_eq!(
        remove.set_modifier(Modifier::Plain).unwrap().modifier(),
        Modifier::Plain
    );

    let create = OperationCreate::new(to_string_vec(vec!["HR"]), Modifier::Plain);
    assert_eq!(
        create.set_modifier(Modifier::FailSilently).unwrap().modifier(),
        Modifier::FailSilently
    );
}

#[test]
fn operation_enum_accessors() {
    let op: Operation =
        OperationShow::new(to_string_vec(vec!["HR"]), true).into();
    assert_eq!(op.keyword(), "Show");
    assert_eq!(op.modifier(), Modifier::FailSilently);
    assert!(op.clone().set_modifier(Modifier::Overwrite).is_none());
    assert_eq!(
        op.set_modifier(Modifier::Plain).unwrap().modifier(),
        Modifier::Plain
    );
    assert_eq!(Operation::Unknown.keyword(), "Unknown");
    assert_eq!(Operation::Unknown.modifier(), Modifier::Plain);
    assert!(Operation::Unknown.set_modifier(Modifier::Plain).is_none());
}

#[test]
fn modifier_display_text() {
    assert_eq!(Modifier::FailSilently.render(), "fail silently");
    assert_eq!(Modifier::Overwrite.render(), "overwrite if existing");
    assert_eq!(Modifier::Plain.render(), "");
}
