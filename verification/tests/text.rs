use query_plan::render::{decimal_text, pad, tagged_text, COLUMN_WIDTH};
use query_plan::{Action, Query, Step};

#[test]
fn labels_name_the_variant_and_its_payload() {
    assert_eq!(Action::Empty.label(), "Empty");
    assert_eq!(Action::Reserved.label(), "None");
    assert_eq!(Action::Name("a").label(), "Name(\"a\")");
    assert_eq!(Action::Select.label(), "Select");
    assert_eq!(Action::Transform.label(), "Map");
    assert_eq!(Action::Filter.label(), "Filter");
    assert_eq!(Action::Group(0).label(), "Group(0)");
    assert_eq!(Action::Group(4294967295).label(), "Group(4294967295)");
    assert_eq!(Action::Join("d").label(), "Join(\"d\")");
}

#[test]
fn labels_quote_identifiers_as_strings() {
    assert_eq!(Action::Name("").label(), "Name(\"\")");
    assert_eq!(Action::Name("a\"b").label(), "Name(\"a\\\"b\")");
    assert_eq!(Action::Join("tab\there").label(), "Join(\"tab\\there\")");
    assert_eq!(Action::Join("d").label(), format!("Join({:?})", "d"));
}

#[test]
fn decimal_text_writes_every_digit() {
    assert_eq!(decimal_text(0), "0");
    assert_eq!(decimal_text(7), "7");
    assert_eq!(decimal_text(10), "10");
    assert_eq!(decimal_text(109), "109");
    assert_eq!(decimal_text(1234567890), "1234567890");
    assert_eq!(decimal_text(u32::MAX), "4294967295");
}

#[test]
fn tagged_text_brackets_the_payload() {
    assert_eq!(tagged_text("Group", "12"), "Group(12)");
    assert_eq!(tagged_text("", ""), "()");
}

#[test]
fn pad_fills_up_to_the_width_and_never_cuts() {
    assert_eq!(pad(String::from("Map"), 11), "Map        ");
    assert_eq!(pad(String::from(""), 3), "   ");
    assert_eq!(pad(String::from("Select"), 6), "Select");
    assert_eq!(pad(String::from("Group(4294967295)"), 11), "Group(4294967295)");
    assert_eq!(pad(String::from("abc"), 0), "abc");
}

#[test]
fn pad_counts_characters() {
    assert_eq!(pad(String::from("\u{e9}t\u{e9}"), 5), "\u{e9}t\u{e9}  ");
    assert_eq!(pad(String::from("\u{e9}t\u{e9}"), 5), format!("{:<5}", "\u{e9}t\u{e9}"));
}

#[test]
fn each_cell_takes_eleven_characters() {
    assert_eq!(COLUMN_WIDTH, 11);
    let step = Step::new(vec![Action::Name("a"), Action::Transform, Action::Filter]);
    assert_eq!(step.render(), "Name(\"a\")  Map        Filter     \n");
    assert_eq!(Step::new(vec![]).render(), "\n");
}

#[test]
fn render_writes_one_line_for_each_step() {
    let query = Query::new(vec![
        vec![Action::Name("a"), Action::Name("b")],
        vec![Action::Transform, Action::Reserved, Action::Select],
        vec![],
        vec![Action::Group(12), Action::Join("d"), Action::Empty],
    ]);
    assert_eq!(
        query.render(),
        "Name(\"a\")  Name(\"b\")  \n\
         Map        None       Select     \n\
         \n\
         Group(12)  Join(\"d\")  Empty      \n"
    );
    assert_eq!(Query::new(vec![]).render(), "");
}

#[test]
fn render_does_not_cut_a_long_cell() {
    let query = Query::new(vec![vec![Action::Name("customer_id"), Action::Select]]);
    assert_eq!(query.render(), "Name(\"customer_id\")Select     \n");
}

#[test]
fn render_gives_the_same_text_each_time() {
    let rows = vec![
        vec![Action::Name("a"), Action::Name("b"), Action::Name("c")],
        vec![Action::Transform, Action::Transform, Action::Transform],
        vec![Action::Reserved, Action::Reserved, Action::Filter],
    ];
    let query = Query::new(rows.clone());
    let first = query.render();
    assert_eq!(query.render(), first);
    assert_eq!(Query::new(rows).render(), first);
    assert_eq!(query.clone().render(), first);
}
