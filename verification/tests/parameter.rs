use phi_synth::gadget::{Link, Parameter, SAMPLERATE};

fn bits(x: f32) -> u32 {
    x.to_bits()
}

#[test]
fn test_unbound() {
    let p = Parameter::new("test", bits(0.0));
    assert!(p.is_unbound());
}

#[test]
fn test_bind_parameter() {
    let mut buffer: Vec<u32> = vec![bits(123.0)];
    let mut p = Parameter::new("test", bits(0.0));
    p.bind(0);
    assert_eq!(f32::from_bits(p.read(&buffer)), 123.0);
    p.write(&mut buffer, bits(456.0));
    assert_eq!(f32::from_bits(buffer[0]), 456.0);
}

#[test]
fn new_parameter_is_free_with_its_value() {
    let p = Parameter::new("freq", bits(440.0));
    assert!(p.is_free());
    assert_eq!(p.name, "freq");
    assert!(matches!(p.link, Link::Value(v) if v == bits(440.0)));
    assert_eq!(p.slot, None);
}

#[test]
fn set_link_and_set_value_switch_freedom() {
    let mut p = Parameter::new("x", bits(1.0));
    p.set_link("Osc: y");
    assert!(!p.is_free());
    assert!(matches!(&p.link, Link::Link(s) if s == "Osc: y"));
    assert_eq!(p.name, "x");
    p.set_value(bits(2.5));
    assert!(p.is_free());
    assert!(matches!(p.link, Link::Value(v) if v == bits(2.5)));
}

#[test]
fn bind_and_unbind() {
    let mut p = Parameter::new("x", bits(1.0));
    p.bind(3);
    assert!(!p.is_unbound());
    assert_eq!(p.slot, Some(3));
    p.unbind();
    assert!(p.is_unbound());
    assert!(p.is_free());
}

#[test]
fn write_is_seen_through_a_parameter_on_the_same_slot() {
    let mut buffer: Vec<u32> = vec![0, 0, 0];
    let mut p = Parameter::new("a", 0);
    let mut q = Parameter::new("b", 0);
    p.bind(1);
    q.bind(1);
    p.write(&mut buffer, bits(-3.0));
    assert_eq!(f32::from_bits(q.read(&buffer)), -3.0);
    assert_eq!(buffer, vec![0, bits(-3.0), 0]);
}

#[test]
fn sample_rate() {
    assert_eq!(SAMPLERATE, 48000);
}
