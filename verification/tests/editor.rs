use phi_synth::editor::{edit_row, RowInput};
use phi_synth::gadget::{Link, Parameter};

fn bits(x: f32) -> u32 {
    x.to_bits()
}

fn nothing() -> RowInput {
    RowInput { unlink: false, value: None, select: false, link: false }
}

#[test]
fn dragging_sets_the_value_of_a_free_parameter() {
    let mut p = Parameter::new("x", bits(1.0));
    let mut selection: Option<String> = None;
    edit_row(&mut p, &"Osc: x".to_string(), &mut selection, RowInput { value: Some(bits(2.0)), ..nothing() });
    assert!(matches!(p.link, Link::Value(v) if v == bits(2.0)));
    assert_eq!(selection, None);
    assert_eq!(p.name, "x");
}

#[test]
fn select_stores_the_row_name() {
    let mut p = Parameter::new("x", bits(1.0));
    let mut selection: Option<String> = Some("old".to_string());
    edit_row(&mut p, &"Osc: x".to_string(), &mut selection, RowInput { value: Some(bits(1.0)), select: true, ..nothing() });
    assert_eq!(selection.as_deref(), Some("Osc: x"));
    assert!(p.is_free());
}

#[test]
fn unlink_frees_a_linked_parameter_with_value_zero() {
    let mut p = Parameter::new("y", bits(1.0));
    p.set_link("Osc: x");
    let mut selection: Option<String> = None;
    edit_row(&mut p, &"Osc: y".to_string(), &mut selection, RowInput { unlink: true, ..nothing() });
    assert!(matches!(p.link, Link::Value(v) if v == 0));
}

#[test]
fn unlink_and_select_do_nothing_where_they_do_not_apply() {
    let mut free = Parameter::new("x", bits(3.0));
    let mut selection: Option<String> = None;
    edit_row(&mut free, &"Osc: x".to_string(), &mut selection, RowInput { unlink: true, ..nothing() });
    assert!(matches!(free.link, Link::Value(v) if v == bits(3.0)));
    let mut linked = Parameter::new("y", 0);
    linked.set_link("Osc: x");
    edit_row(&mut linked, &"Osc: y".to_string(), &mut selection, RowInput { select: true, ..nothing() });
    assert_eq!(selection, None);
    assert!(matches!(&linked.link, Link::Link(s) if s == "Osc: x"));
}

#[test]
fn link_button_links_to_the_selection() {
    let mut p = Parameter::new("OUT", 0);
    p.bind(4);
    let mut selection: Option<String> = Some("Osc: x".to_string());
    edit_row(&mut p, &"OUT".to_string(), &mut selection, RowInput { value: Some(0), link: true, ..nothing() });
    assert!(matches!(&p.link, Link::Link(s) if s == "Osc: x"));
    assert_eq!(p.slot, Some(4));
    assert_eq!(selection.as_deref(), Some("Osc: x"));
}

#[test]
fn link_button_without_selection_does_nothing() {
    let mut p = Parameter::new("OUT", bits(5.0));
    let mut selection: Option<String> = None;
    edit_row(&mut p, &"OUT".to_string(), &mut selection, RowInput { link: true, ..nothing() });
    assert!(matches!(p.link, Link::Value(v) if v == bits(5.0)));
}
