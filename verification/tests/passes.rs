use query_plan::{Action, Query};

fn cells(query: &Query) -> usize {
    let mut total = 0;
    for step in &query.steps {
        total += step.actions.len();
    }
    total
}

#[test]
fn pruning_takes_the_dead_column_from_every_step_that_has_it() {
    let mut query = Query::new(vec![
        vec![Action::Name("a"), Action::Name("b"), Action::Select],
        vec![Action::Empty],
    ]);
    query.prune_dead_columns();
    assert_eq!(query, Query::new(vec![
        vec![Action::Name("b"), Action::Select],
        vec![],
    ]));
}

#[test]
fn pruning_without_a_dead_column_changes_nothing() {
    let rows = vec![
        vec![Action::Name("a"), Action::Name("b")],
        vec![Action::Filter, Action::Join("d")],
        vec![Action::Empty, Action::Empty],
    ];
    let mut query = Query::new(rows.clone());
    query.prune_dead_columns();
    assert_eq!(query, Query::new(rows));
}

#[test]
fn pruning_keeps_what_stands_left_of_the_dead_column() {
    let mut query = Query::new(vec![
        vec![Action::Name("a"), Action::Name("b"), Action::Name("c")],
        vec![Action::Join("d"), Action::Transform, Action::Transform],
        vec![Action::Select, Action::Empty, Action::Select],
    ]);
    query.prune_dead_columns();
    assert_eq!(query, Query::new(vec![
        vec![Action::Name("a"), Action::Name("c")],
        vec![Action::Join("d"), Action::Transform],
        vec![Action::Select, Action::Select],
    ]));
}

#[test]
fn pruning_removes_by_position_in_the_plan_as_it_stands() {
    let mut query = Query::new(vec![
        vec![Action::Name("a"), Action::Name("b"), Action::Name("c")],
        vec![Action::Empty, Action::Empty, Action::Select],
    ]);
    query.prune_dead_columns();
    assert_eq!(query, Query::new(vec![
        vec![Action::Name("b")],
        vec![Action::Empty],
    ]));
}

#[test]
fn pruning_judges_a_step_that_is_too_short_as_a_hole() {
    let mut query = Query::new(vec![
        vec![Action::Name("a"), Action::Name("b")],
        vec![Action::Select],
        vec![Action::Select, Action::Select],
    ]);
    query.prune_dead_columns();
    assert_eq!(query, Query::new(vec![
        vec![Action::Name("a")],
        vec![Action::Select],
        vec![Action::Select],
    ]));
}

#[test]
fn pruning_an_empty_plan_gives_an_empty_plan() {
    let mut query = Query::new(vec![]);
    query.prune_dead_columns();
    assert_eq!(query, Query::new(vec![]));
    assert_eq!(Query::new(vec![]).optimize(), Query::new(vec![]));
}

#[test]
fn hoisting_stops_behind_the_nearest_group() {
    let mut query = Query::new(vec![
        vec![Action::Name("a")],
        vec![Action::Transform],
        vec![Action::Group(0)],
        vec![Action::Transform],
        vec![Action::Select],
        vec![Action::Filter],
    ]);
    query.hoist_filters();
    assert_eq!(query, Query::new(vec![
        vec![Action::Name("a")],
        vec![Action::Transform],
        vec![Action::Group(0)],
        vec![Action::Filter],
        vec![Action::Transform],
        vec![Action::Select],
    ]));
}

#[test]
fn hoisting_never_passes_the_first_step() {
    let rows = vec![
        vec![Action::Transform],
        vec![Action::Filter],
    ];
    let mut query = Query::new(rows.clone());
    query.hoist_filters();
    assert_eq!(query, Query::new(rows));
    let rows = vec![
        vec![Action::Filter],
        vec![Action::Transform],
    ];
    let mut query = Query::new(rows.clone());
    query.hoist_filters();
    assert_eq!(query, Query::new(rows));
}

#[test]
fn hoisting_leaves_a_step_that_groups_and_filters() {
    let rows = vec![
        vec![Action::Name("a"), Action::Name("b")],
        vec![Action::Transform, Action::Transform],
        vec![Action::Group(1), Action::Filter],
        vec![Action::Select, Action::Select],
    ];
    let mut query = Query::new(rows.clone());
    query.hoist_filters();
    assert_eq!(query, Query::new(rows));
}

#[test]
fn hoisting_puts_each_filter_right_behind_the_anchor() {
    let mut query = Query::new(vec![
        vec![Action::Name("a"), Action::Name("b")],
        vec![Action::Transform, Action::Transform],
        vec![Action::Filter, Action::Reserved],
        vec![Action::Reserved, Action::Filter],
    ]);
    query.hoist_filters();
    assert_eq!(query, Query::new(vec![
        vec![Action::Name("a"), Action::Name("b")],
        vec![Action::Reserved, Action::Filter],
        vec![Action::Filter, Action::Reserved],
        vec![Action::Transform, Action::Transform],
    ]));
}

#[test]
fn hoisting_stops_below_a_step_that_is_too_narrow() {
    let mut query = Query::new(vec![
        vec![Action::Select, Action::Select, Action::Select, Action::Select],
        vec![Action::Select],
        vec![Action::Select, Action::Select, Action::Select, Action::Select],
        vec![Action::Reserved, Action::Reserved, Action::Reserved, Action::Filter],
    ]);
    query.hoist_filters();
    assert_eq!(query, Query::new(vec![
        vec![Action::Select, Action::Select, Action::Select, Action::Select],
        vec![Action::Select],
        vec![Action::Reserved, Action::Reserved, Action::Reserved, Action::Filter],
        vec![Action::Select, Action::Select, Action::Select, Action::Select],
    ]));
}

#[test]
fn hoisting_compares_lengths_with_one_less_than_the_filter_position() {
    let mut query = Query::new(vec![
        vec![Action::Select, Action::Select],
        vec![Action::Select, Action::Select],
        vec![Action::Select, Action::Select, Action::Select],
        vec![Action::Reserved, Action::Reserved, Action::Reserved, Action::Filter],
    ]);
    query.hoist_filters();
    assert_eq!(query, Query::new(vec![
        vec![Action::Select, Action::Select],
        vec![Action::Reserved, Action::Reserved, Action::Reserved, Action::Filter],
        vec![Action::Select, Action::Select],
        vec![Action::Select, Action::Select, Action::Select],
    ]));
}

#[test]
fn hoisting_keeps_a_narrowed_anchor_for_later_filters() {
    let query = Query::new(vec![
        vec![Action::Select, Action::Select, Action::Select, Action::Select],
        vec![Action::Select],
        vec![Action::Select, Action::Select, Action::Select, Action::Select],
        vec![Action::Reserved, Action::Reserved, Action::Reserved, Action::Filter],
        vec![Action::Filter],
    ]);
    assert_eq!(query.optimize(), Query::new(vec![
        vec![Action::Select, Action::Select, Action::Select, Action::Select],
        vec![Action::Select],
        vec![Action::Filter],
        vec![Action::Reserved, Action::Reserved, Action::Reserved, Action::Filter],
        vec![Action::Select, Action::Select, Action::Select, Action::Select],
    ]));
}

#[test]
fn narrow_anchor_finds_the_nearest_short_step() {
    let query = Query::new(vec![
        vec![Action::Select],
        vec![Action::Select, Action::Select, Action::Select],
        vec![Action::Select],
        vec![Action::Select, Action::Select, Action::Select],
        vec![Action::Reserved, Action::Reserved, Action::Reserved, Action::Filter],
    ]);
    assert_eq!(query.narrow_anchor(0, 4, 3), 2);
    assert_eq!(query.narrow_anchor(0, 2, 3), 0);
    assert_eq!(query.narrow_anchor(1, 2, 3), 1);
    assert_eq!(query.narrow_anchor(3, 4, 3), 3);
    assert_eq!(query.narrow_anchor(4, 4, 3), 4);
    assert_eq!(query.narrow_anchor(0, 4, 2), 0);
    assert_eq!(query.narrow_anchor(0, 4, 1), 0);
    assert_eq!(query.narrow_anchor(0, 4, 0), 0);
    assert_eq!(query.narrow_anchor(0, 5, 5), 3);
    assert_eq!(query.narrow_anchor(0, 5, 6), 4);
}

#[test]
fn hoisting_keeps_the_other_steps_in_order() {
    let query = Query::new(vec![
        vec![Action::Name("a")],
        vec![Action::Transform],
        vec![Action::Filter],
        vec![Action::Select],
        vec![Action::Join("d")],
        vec![Action::Filter],
        vec![Action::Reserved],
    ]);
    let plan = query.optimize();
    let others: Vec<_> = plan.steps.iter().filter(|step| !step.is_filter()).cloned().collect();
    let before: Vec<_> = query.steps.iter().filter(|step| !step.is_filter()).cloned().collect();
    assert_eq!(others, before);
    assert_eq!(plan, Query::new(vec![
        vec![Action::Name("a")],
        vec![Action::Filter],
        vec![Action::Filter],
        vec![Action::Transform],
        vec![Action::Select],
        vec![Action::Join("d")],
        vec![Action::Reserved],
    ]));
}

#[test]
fn no_group_stands_between_a_filter_and_its_wall() {
    let query = Query::new(vec![
        vec![Action::Name("a")],
        vec![Action::Filter],
        vec![Action::Group(0)],
        vec![Action::Transform],
        vec![Action::Filter],
        vec![Action::Group(1)],
        vec![Action::Select],
        vec![Action::Transform],
        vec![Action::Filter],
    ]);
    let plan = query.optimize();
    assert_eq!(plan, Query::new(vec![
        vec![Action::Name("a")],
        vec![Action::Filter],
        vec![Action::Group(0)],
        vec![Action::Filter],
        vec![Action::Transform],
        vec![Action::Group(1)],
        vec![Action::Filter],
        vec![Action::Select],
        vec![Action::Transform],
    ]));
    for (at, step) in plan.steps.iter().enumerate() {
        assert_eq!(step.is_group(), query.steps[at].is_group());
    }
}

#[test]
fn optimize_never_adds_a_cell() {
    let plans = vec![
        Query::new(vec![]),
        Query::new(vec![
            vec![Action::Name("a")],
            vec![Action::Join("d"), Action::Name("b"), Action::Name("c")],
            vec![Action::Select, Action::Select, Action::Empty],
        ]),
        Query::new(vec![
            vec![Action::Name("a"), Action::Name("b"), Action::Name("c")],
            vec![Action::Empty, Action::Empty, Action::Select],
        ]),
        Query::new(vec![
            vec![Action::Name("a")],
            vec![Action::Transform, Action::Transform, Action::Transform],
            vec![Action::Filter],
        ]),
    ];
    for query in &plans {
        let plan = query.optimize();
        assert_eq!(plan.steps.len(), query.steps.len());
        assert!(cells(&plan) <= cells(query));
    }
}

#[test]
fn optimize_may_widen_the_plan_by_hoisting_its_last_step() {
    let query = Query::new(vec![
        vec![Action::Name("a")],
        vec![Action::Transform, Action::Transform, Action::Transform],
        vec![Action::Filter],
    ]);
    let plan = query.optimize();
    assert_eq!(plan, Query::new(vec![
        vec![Action::Name("a")],
        vec![Action::Filter],
        vec![Action::Transform, Action::Transform, Action::Transform],
    ]));
    assert_eq!(query.width(), 1);
    assert_eq!(plan.width(), 3);
    assert_eq!(cells(&plan), cells(&query));
}

#[test]
fn optimize_leaves_its_receiver_as_it_was() {
    let rows = vec![
        vec![Action::Name("a"), Action::Name("b")],
        vec![Action::Transform, Action::Empty],
        vec![Action::Filter, Action::Reserved],
    ];
    let query = Query::new(rows.clone());
    let plan = query.optimize();
    assert_eq!(query, Query::new(rows));
    assert_eq!(plan, Query::new(vec![
        vec![Action::Name("a")],
        vec![Action::Filter],
        vec![Action::Transform],
    ]));
}

#[test]
fn optimize_prunes_before_it_hoists() {
    let query = Query::new(vec![
        vec![Action::Name("a"), Action::Name("b"), Action::Name("c"), Action::Name("d")],
        vec![Action::Join("x"), Action::Empty, Action::Join("y")],
        vec![Action::Join("x"), Action::Select, Action::Join("y"), Action::Join("z")],
        vec![Action::Reserved, Action::Reserved, Action::Reserved, Action::Filter],
    ]);
    assert_eq!(query.optimize(), Query::new(vec![
        vec![Action::Name("a"), Action::Name("c"), Action::Name("d")],
        vec![Action::Reserved, Action::Reserved, Action::Filter],
        vec![Action::Join("x"), Action::Join("y")],
        vec![Action::Join("x"), Action::Join("y"), Action::Join("z")],
    ]));
}
