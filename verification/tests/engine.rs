use phi_synth::container::{AnyGadget, GadgetContainer};
use phi_synth::engine::{Engine, OutputGadget};
use phi_synth::gadget::Gadget;
use phi_synth::oscillators::DampedOscillatorGadget;
use phi_synth::transformations::AbsGadget;

fn bits(x: f32) -> u32 {
    x.to_bits()
}

fn sample_container() -> GadgetContainer {
    let mut c = GadgetContainer::new();
    c.container.push(AnyGadget::Output(OutputGadget::new()));
    c.container.push(AnyGadget::DampedOscillator(DampedOscillatorGadget::new("Osc")));
    c
}

fn slots<G: Gadget>(e: &Engine<G>) -> Vec<Option<usize>> {
    (0..e.gadget.parameter_count()).map(|i| e.gadget.par(i).slot).collect()
}

#[test]
fn test_dpo() {
    let mut engine = Engine::new(DampedOscillatorGadget::new("Osc"));
    assert!(engine.links_resolve());
    engine.bind();
    assert_eq!(slots(&engine), (0..6).map(Some).collect::<Vec<_>>());
    assert_eq!(
        engine.buffer,
        vec![bits(440.0), bits(1.0), 0, 0, 0, bits(1.0)]
    );
    assert_eq!(engine.output, None);
    assert_eq!(engine.out(), bits(0.0));
}

#[test]
fn out_is_zero_before_binding() {
    let engine = Engine::new(sample_container());
    assert!(engine.buffer.is_empty());
    assert_eq!(engine.output, None);
    assert_eq!(engine.out(), 0);
}

#[test]
fn unlinked_output_reads_its_own_value() {
    let mut engine = Engine::new(sample_container());
    engine.gadget.par_mut(0).set_value(bits(0.25));
    engine.bind();
    assert_eq!(engine.output, Some(0));
    assert_eq!(f32::from_bits(engine.out()), 0.25);
    assert_eq!(engine.buffer.len(), 7);
}

#[test]
fn linked_output_shares_the_slot_of_its_target() {
    let mut engine = Engine::new(sample_container());
    engine.gadget.par_mut(0).set_link("Osc: x");
    assert!(engine.links_resolve());
    engine.bind();
    // six free parameters, the oscillator's, at slots 0..6 in index order
    assert_eq!(engine.buffer, vec![bits(440.0), bits(1.0), 0, 0, 0, bits(1.0)]);
    assert_eq!(slots(&engine), vec![Some(1), Some(0), Some(1), Some(2), Some(3), Some(4), Some(5)]);
    assert_eq!(engine.output, Some(1));
    assert_eq!(f32::from_bits(engine.out()), 1.0);
    // a write through the oscillator's x is read at the output
    let x = engine.gadget.par(2);
    let mut buffer = engine.buffer.clone();
    x.write(&mut buffer, bits(-0.5));
    engine.buffer = buffer;
    assert_eq!(f32::from_bits(engine.out()), -0.5);
    assert_eq!(
        f32::from_bits(engine.gadget.par(0).read(&engine.buffer)),
        -0.5
    );
}

#[test]
fn trailing_link_leaves_one_slot_per_free_parameter() {
    let mut engine = Engine::new(DampedOscillatorGadget::new("Osc"));
    engine.gadget.par_mut(5).set_link("Osc: x");
    assert!(engine.links_resolve());
    engine.bind();
    assert_eq!(engine.buffer.len(), 5);
    assert_eq!(engine.buffer, vec![bits(440.0), bits(1.0), 0, 0, 0]);
    assert_eq!(slots(&engine), vec![Some(0), Some(1), Some(2), Some(3), Some(4), Some(1)]);
}

#[test]
fn chains_of_links_end_at_a_free_parameter() {
    let mut engine = Engine::new(sample_container());
    engine.gadget.par_mut(0).set_link("Osc: y");
    engine.gadget.par_mut(4).set_link("Osc: frequency");
    engine.gadget.par_mut(5).set_link("Osc: y");
    assert!(engine.links_resolve());
    engine.bind();
    // free: frequency, x, xs, damp at slots 0, 1, 2, 3
    assert_eq!(
        slots(&engine),
        vec![Some(0), Some(0), Some(1), Some(2), Some(0), Some(0), Some(3)]
    );
    assert_eq!(engine.output, Some(0));
    assert_eq!(f32::from_bits(engine.out()), 440.0);
    assert_eq!(engine.buffer, vec![bits(440.0), bits(1.0), 0, bits(1.0)]);
}

#[test]
fn output_missing_gives_no_output() {
    let mut c = GadgetContainer::new();
    c.container.push(AnyGadget::Abs(AbsGadget::new("A")));
    let mut engine = Engine::new(c);
    assert!(engine.links_resolve());
    engine.bind();
    assert_eq!(engine.output, None);
    assert_eq!(engine.out(), 0);
}

#[test]
fn link_to_a_missing_parameter_does_not_resolve() {
    let mut engine = Engine::new(sample_container());
    engine.gadget.par_mut(3).set_link("nowhere");
    assert!(!engine.links_resolve());
}

#[test]
fn cycle_of_links_does_not_resolve() {
    let mut engine = Engine::new(sample_container());
    engine.gadget.par_mut(0).set_link("Osc: x");
    engine.gadget.par_mut(2).set_link("Osc: y");
    engine.gadget.par_mut(4).set_link("OUT");
    assert!(!engine.links_resolve());
}

#[test]
fn self_link_does_not_resolve() {
    let mut engine = Engine::new(sample_container());
    engine.gadget.par_mut(3).set_link("Osc: xs");
    assert!(!engine.links_resolve());
}

#[test]
fn cycle_away_from_out_and_links_does_not_matter_when_unreached() {
    // the chain from OUT must end even when OUT itself is not linked to
    let mut c = GadgetContainer::new();
    c.container.push(AnyGadget::Abs(AbsGadget::new("A")));
    let engine = Engine::new(c);
    assert!(engine.links_resolve());
}

#[test]
fn binding_twice_is_binding_once() {
    let mut engine = Engine::new(sample_container());
    engine.gadget.par_mut(0).set_link("Osc: x");
    engine.bind();
    let buffer = engine.buffer.clone();
    let slots_once = slots(&engine);
    let output = engine.output;
    engine.bind();
    assert_eq!(engine.buffer, buffer);
    assert_eq!(slots(&engine), slots_once);
    assert_eq!(engine.output, output);
}

#[test]
fn rebinding_after_writes_restores_the_values() {
    let mut engine = Engine::new(sample_container());
    engine.gadget.par_mut(0).set_link("Osc: x");
    engine.bind();
    let buffer = engine.buffer.clone();
    let out = engine.out();
    engine.buffer[0] = 77;
    engine.buffer[1] = 88;
    engine.bind();
    assert_eq!(engine.buffer, buffer);
    assert_eq!(engine.out(), out);
    assert_eq!(engine.buffer[1], bits(1.0));
}
