use phi_synth::container::{AnyGadget, GadgetContainer};
use phi_synth::engine::OutputGadget;
use phi_synth::gadget::{Gadget, Link};
use phi_synth::oscillators::{DampedOscillatorGadget, PowerOscillatorGadget};
use phi_synth::transformations::{AbsGadget, AmplitudePhaseGadget, DoubleAbsGadget};

fn bits(x: f32) -> u32 {
    x.to_bits()
}

fn values<G: Gadget>(g: &G) -> Vec<u32> {
    (0..g.parameter_count())
        .map(|i| match g.par(i).link {
            Link::Value(v) => v,
            Link::Link(_) => panic!("linked"),
        })
        .collect()
}

#[test]
fn damped_oscillator_parameters() {
    let g = DampedOscillatorGadget::new("Osc");
    assert_eq!(g.name(), "DO");
    assert_eq!(g.get_instance_name(), "Osc");
    assert_eq!(g.parameter_count(), 6);
    assert_eq!(
        g.parameter_names(),
        vec!["Osc: frequency", "Osc: x", "Osc: xs", "Osc: y", "Osc: ys", "Osc: damp"]
    );
    assert_eq!(
        values(&g),
        vec![bits(440.0), bits(1.0), bits(0.0), bits(0.0), bits(0.0), bits(1.0)]
    );
    assert_eq!(g.free_parameter_count(), 6);
    for i in 0..6 {
        assert!(g.par(i).is_unbound());
    }
}

#[test]
fn power_oscillator_parameters() {
    let g = PowerOscillatorGadget::new("P");
    assert_eq!(g.name(), "PwO");
    assert_eq!(
        g.parameter_names(),
        vec!["P: frequency", "P: x", "P: xs", "P: y", "P: ys", "P: damp", "P: power", "P: alpha"]
    );
    assert_eq!(
        values(&g),
        vec![bits(440.0), bits(1.0), 0, 0, 0, bits(1.0), 0, 0]
    );
}

#[test]
fn transformation_parameters() {
    let a = AbsGadget::new("A");
    assert_eq!(a.name(), "ABS");
    assert_eq!(a.parameter_names(), vec!["A: inp", "A: out"]);
    assert_eq!(values(&a), vec![0, 0]);
    let d = DoubleAbsGadget::new("D");
    assert_eq!(d.name(), "DABS");
    assert_eq!(d.parameter_names(), vec!["D: x", "D: y", "D: out"]);
    let p = AmplitudePhaseGadget::new("AP");
    assert_eq!(p.name(), "DABS");
    assert_eq!(
        p.parameter_names(),
        vec!["AP: x", "AP: y", "AP: amplitude", "AP: phase"]
    );
    assert_eq!(values(&p), vec![0, 0, 0, 0]);
}

#[test]
fn output_gadget_is_found_under_out() {
    let g = OutputGadget::new();
    assert_eq!(g.name(), "Output");
    assert_eq!(g.get_instance_name(), "Output");
    assert_eq!(g.parameter_names(), vec!["OUT"]);
    assert_eq!(g.parameter_count(), 1);
    assert_eq!(g.par(0).name, "OUT");
    assert!(g.parameter("OUT").is_some());
    assert!(g.parameter("Output: OUT").is_none());
}

#[test]
fn parameter_lookup_by_name() {
    let mut g = DampedOscillatorGadget::new("Osc");
    assert_eq!(g.parameter("Osc: ys").map(|p| p.name), Some("ys"));
    assert!(g.parameter("ys").is_none());
    assert!(g.parameter("Osc: zz").is_none());
    g.parameter_mut("Osc: damp").unwrap().set_value(bits(0.5));
    assert!(matches!(g.par(5).link, Link::Value(v) if v == bits(0.5)));
    assert!(g.parameter_mut("nothing").is_none());
}

#[test]
fn lookup_finds_the_first_of_equal_names() {
    let mut c = GadgetContainer::new();
    c.container.push(AnyGadget::Abs(AbsGadget::new("A")));
    c.container.push(AnyGadget::Abs(AbsGadget::new("A")));
    c.par_mut(2).set_value(bits(9.0));
    let p = c.parameter("A: inp").unwrap();
    assert!(matches!(p.link, Link::Value(v) if v == 0));
}

#[test]
fn free_parameter_count_drops_with_links() {
    let mut g = DampedOscillatorGadget::new("Osc");
    g.par_mut(1).set_link("Osc: y");
    g.par_mut(2).set_link("Osc: y");
    assert_eq!(g.free_parameter_count(), 4);
    g.par_mut(1).set_value(0);
    assert_eq!(g.free_parameter_count(), 5);
}

fn sample_container() -> GadgetContainer {
    let mut c = GadgetContainer::new();
    c.container.push(AnyGadget::Output(OutputGadget::new()));
    c.container.push(AnyGadget::DampedOscillator(DampedOscillatorGadget::new("Osc")));
    c.container.push(AnyGadget::Abs(AbsGadget::new("ABS1")));
    c
}

#[test]
fn container_concatenates_parameters() {
    let c = sample_container();
    assert_eq!(c.name(), "container");
    assert_eq!(c.get_instance_name(), "container");
    assert_eq!(c.parameter_count(), 9);
    assert_eq!(
        c.parameter_names(),
        vec![
            "OUT",
            "Osc: frequency",
            "Osc: x",
            "Osc: xs",
            "Osc: y",
            "Osc: ys",
            "Osc: damp",
            "ABS1: inp",
            "ABS1: out"
        ]
    );
    let names: Vec<&str> = (0..9).map(|i| c.par(i).name).collect();
    assert_eq!(
        names,
        vec!["OUT", "frequency", "x", "xs", "y", "ys", "damp", "inp", "out"]
    );
    assert_eq!(c.free_parameter_count(), 9);
}

#[test]
fn container_par_mut_reaches_the_right_gadget() {
    let mut c = sample_container();
    c.par_mut(8).set_link("OUT");
    match &c.container[2] {
        AnyGadget::Abs(a) => assert!(!a.par(1).is_free()),
        _ => panic!("wrong gadget"),
    }
    c.par_mut(0).set_link("ABS1: out");
    match &c.container[0] {
        AnyGadget::Output(o) => assert!(matches!(&o.par(0).link, Link::Link(s) if s == "ABS1: out")),
        _ => panic!("wrong gadget"),
    }
    assert_eq!(c.free_parameter_count(), 7);
}

#[test]
fn empty_container() {
    let c = GadgetContainer::new();
    assert_eq!(c.parameter_count(), 0);
    assert!(c.parameter_names().is_empty());
    assert!(c.parameter("OUT").is_none());
}
