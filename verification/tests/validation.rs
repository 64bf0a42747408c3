use circuit_solver::component::Component;
use circuit_solver::container::Container;
use circuit_solver::elements::Element;
use circuit_solver::util::{create_mna_container, PrettyPrint};
use circuit_solver::validation::{
    check_duplicates, get_all_internal_status_errors, Status, StatusError, Validation,
};

fn element(id: usize, class: Component, positive: Vec<usize>, negative: Vec<usize>) -> Element {
    let mut e = Element::new(class, 5, positive, negative);
    e.id = id;
    e
}

#[test]
fn status_texts() {
    assert_eq!(Status::Valid.to_text(), "Valid");
    assert_eq!(Status::Simplified.to_text(), "Simplified");
}

#[test]
fn status_error_texts() {
    assert_eq!(StatusError::Unknown.to_text(), "Unknown Issue");
    assert_eq!(
        StatusError::KnownIssue("open circuit".to_string()).to_text(),
        "Known Issue: open circuit"
    );
    assert_eq!(
        StatusError::MultipleIssues(vec![]).to_text(),
        "Multiple Issues: []"
    );
    assert_eq!(
        StatusError::MultipleIssues(vec![
            StatusError::KnownIssue("Duplicate: R1".to_string()),
            StatusError::Unknown,
            StatusError::MultipleIssues(vec![StatusError::Unknown]),
        ])
        .to_text(),
        "Multiple Issues: [KnownIssue(\"Duplicate: R1\"), Unknown, MultipleIssues([Unknown])]"
    );
}

#[test]
fn quoted_descriptions_are_escaped() {
    assert_eq!(
        StatusError::MultipleIssues(vec![StatusError::KnownIssue("a \"b\"\n".to_string())])
            .to_text(),
        "Multiple Issues: [KnownIssue(\"a \\\"b\\\"\\n\")]"
    );
}

#[test]
fn elements_are_checked_one_by_one() {
    let list = vec![
        element(0, Component::Ground, vec![1], vec![]),
        element(1, Component::Resistor, vec![], vec![]),
        element(2, Component::Resistor, vec![2], vec![0]),
        element(3, Component::VoltageSrc, vec![0], vec![1]),
    ];
    assert_eq!(list[0].validate().ok(), Some(Status::Valid));
    let errors = get_all_internal_status_errors(&list);
    let texts: Vec<String> = errors.iter().map(|e| e.to_text()).collect();
    assert_eq!(
        texts,
        vec![
            "Known Issue: Not connected: R1: 5 Ω",
            "Known Issue: Connected to itself: R2: 5 Ω"
        ]
    );
}

#[test]
fn no_errors_for_valid_elements() {
    let c = create_mna_container();
    assert!(get_all_internal_status_errors(c.get_elements()).is_empty());
    assert_eq!(c.validate().ok(), Some(Status::Valid));
}

#[test]
fn duplicates_are_reported_once_for_every_repeat() {
    let list = vec![
        element(1, Component::Resistor, vec![2], vec![]),
        element(2, Component::VoltageSrc, vec![1], vec![]),
        element(1, Component::Resistor, vec![2], vec![]),
        element(3, Component::Resistor, vec![2], vec![]),
        element(1, Component::Resistor, vec![2], vec![]),
        element(2, Component::VoltageSrc, vec![1], vec![]),
    ];
    let errors = check_duplicates(&list);
    let texts: Vec<String> = errors.iter().map(|e| e.to_text()).collect();
    assert_eq!(
        texts,
        vec![
            "Known Issue: Duplicate: R1: 5 Ω",
            "Known Issue: Duplicate: R1: 5 Ω",
            "Known Issue: Duplicate: SRC(V)2: 5 V"
        ]
    );
}

#[test]
fn no_duplicates_in_a_container() {
    let c = create_mna_container();
    assert!(check_duplicates(c.get_elements()).is_empty());
    assert!(check_duplicates::<Element>(&vec![]).is_empty());
}

#[test]
fn container_reports_all_issues_together() {
    let c = Container::from(vec![
        Element::new(Component::Resistor, 5, vec![], vec![]),
        Element::new(Component::Ground, 0, vec![0], vec![]),
        Element::new(Component::Resistor, 7, vec![2], vec![]),
    ]);
    match c.validate() {
        Err(e) => assert_eq!(
            e.to_text(),
            "Multiple Issues: [KnownIssue(\"Not connected: R0: 5 Ω\"), KnownIssue(\"Connected to itself: R2: 7 Ω\")]"
        ),
        Ok(_) => panic!("the container passed"),
    }
}

#[test]
fn labels() {
    let e = element(4, Component::VoltageSrc, vec![1], vec![0]);
    assert_eq!(e.basic_string(), "SRC(V)4");
    assert_eq!(e.pretty_string(), "SRC(V)4: 5 V");
    let mut c = element(9, Component::CurrentSrc, vec![1], vec![0]);
    c.value = -3;
    assert_eq!(c.pretty_string(), "SRC(C)9: -3 A");
    assert_eq!(
        element(0, Component::Ground, vec![1], vec![]).pretty_string(),
        "GND0"
    );
    assert_eq!(e.variable().equation_repr(), "SRC(V)4");
    assert!(e == element(4, Component::Resistor, vec![], vec![]));
    assert!(e != c);
}

#[test]
fn message_of_an_aggregate_is_its_debug_notation() {
    let list = vec![
        StatusError::KnownIssue("Duplicate: R1 \\ \"x\"\t".to_string()),
        StatusError::Unknown,
        StatusError::MultipleIssues(vec![
            StatusError::Unknown,
            StatusError::KnownIssue("é ☃".to_string()),
        ]),
    ];
    let expected = format!("Multiple Issues: {:?}", list);
    assert_eq!(StatusError::MultipleIssues(list).to_text(), expected);
}

#[test]
fn cloned_errors_have_the_same_message() {
    let e = StatusError::MultipleIssues(vec![
        StatusError::KnownIssue("a".to_string()),
        StatusError::Unknown,
    ]);
    assert_eq!(e.clone().to_text(), e.to_text());
}
