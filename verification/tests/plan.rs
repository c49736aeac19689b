use query_plan::{Action, Col, Query, Step};

#[test]
fn can_select_column_from_query() {
    let query = Query::new(vec![
        vec![Action::Name("a")],
        vec![Action::Join("d"), Action::Name("b")],
        ]
    );
    assert_eq!(query.col(0).actions, vec![Action::Name("a"), Action::Join("d")]);
    assert_eq!(query.col(1).actions, vec![Action::Empty, Action::Name("b")]);
}

#[test]
fn can_select_all_columns_from_query() {
    let query = Query::new(vec![
        vec![Action::Name("a")],
        vec![Action::Join("d"), Action::Name("b")],
        ]
    );
    assert_eq!(query.cols(), vec![
        Col::new(vec![Action::Name("a"), Action::Join("d")]),
        Col::new(vec![Action::Empty, Action::Name("b")]),
    ])
}

#[test]
fn can_detect_empty_col() {
    assert!(
        !Col::new(vec![Action::Name("a")]).is_empty());
    assert!(
        Col::new(vec![Action::Empty, Action::Name("a"), Action::Empty]).is_empty());
    assert!(
        !Col::new(vec![Action::Empty, Action::Name("a"), Action::Join("d"), Action::Empty]).is_empty())
}

#[test]
fn optimize_will_remove_an_empty_col() {
    let query = Query::new(vec![
        vec![Action::Name("a")],
        vec![Action::Join("d"), Action::Name("b"), Action::Name("c")],
        vec![Action::Select,    Action::Select,    Action::Empty],
        ]);
    assert_eq!(query.optimize(), Query::new(vec![
        vec![Action::Name("a")],
        vec![Action::Join("d"), Action::Name("b")],
        vec![Action::Select,    Action::Select],
        ]))
}

#[test]
fn optimize_will_move_filters_upwards() {
    let query = Query::new(vec![
        vec![Action::Name("a")],
        vec![Action::Transform],
        vec![Action::Filter],
        ]);
    assert_eq!(query.optimize(), Query::new(vec![
        vec![Action::Name("a")],
        vec![Action::Filter],
        vec![Action::Transform],
        ]))
}

#[test]
fn step_can_find_the_widest_filter_action() {
    let step = Step::new(vec![
        Action::Reserved, Action::Filter, Action::Filter, Action::Reserved,
        ]);
    assert_eq!(step.widest_filter_index().unwrap(), 2)
}
