//! Oscillator gadgets: their parameters and how they are addressed.
//!
//! What an oscillator computes on each sample is floating-point work and
//! is done by the program that drives the engine.
use vstd::prelude::*;
use crate::gadget::{
    fresh, names_of, prefixed_names, prefixed_parameter_names, Gadget, Parameter, BITS_440,
    BITS_ONE, BITS_ZERO,
};

verus! {

/// A damped harmonic oscillator with parameters `frequency`, `x`, `xs`,
/// `y`, `ys` and `damp`.
pub struct DampedOscillatorGadget {
    frequency: Parameter,
    x: Parameter,
    xs: Parameter,
    y: Parameter,
    ys: Parameter,
    damp: Parameter,
    instance_name: String,
}

impl DampedOscillatorGadget {
    /// A damped oscillator at 440 Hz that starts at `x = 1`, `y = 0`,
    /// with no forcing and damping 1.
    pub fn new(name: &str) -> (g: DampedOscillatorGadget)
        ensures
            g.inv(),
            g.instance_name() == name@,
            g.kind_name() == "DO"@,
            g.params() == seq![
                fresh("frequency", BITS_440),
                fresh("x", BITS_ONE),
                fresh("xs", BITS_ZERO),
                fresh("y", BITS_ZERO),
                fresh("ys", BITS_ZERO),
                fresh("damp", BITS_ONE),
            ],
            g.full_names() == prefixed_names(name@, g.params()),
    {
        DampedOscillatorGadget {
            frequency: Parameter::new("frequency", BITS_440),
            x: Parameter::new("x", BITS_ONE),
            xs: Parameter::new("xs", BITS_ZERO),
            y: Parameter::new("y", BITS_ZERO),
            ys: Parameter::new("ys", BITS_ZERO),
            damp: Parameter::new("damp", BITS_ONE),
            instance_name: name.to_owned(),
        }
    }

    /// Every DampedOscillatorGadget has 6 parameters, found under its instance name,
    /// a colon, a space and the parameter's name.
    pub proof fn lemma_layout(&self)
        ensures
            self.inv(),
            self.params().len() == 6,
            self.full_names() == prefixed_names(self.instance_name(), self.params()),
            self.kind_name() == "DO"@,
    {
    }
}

impl Gadget for DampedOscillatorGadget {
    closed spec fn params(&self) -> Seq<Parameter> {
        seq![self.frequency, self.x, self.xs, self.y, self.ys, self.damp]
    }

    closed spec fn full_names(&self) -> Seq<Seq<char>> {
        prefixed_names(self.instance_name@, self.params())
    }

    closed spec fn instance_name(&self) -> Seq<char> {
        self.instance_name@
    }

    closed spec fn kind_name(&self) -> Seq<char> {
        "DO"@
    }

    /// Every value is well-formed: its parameters are its fixed fields.
    closed spec fn inv(&self) -> bool {
        true
    }

    proof fn lemma_inv(&self) {
    }

    fn name(&self) -> (r: &'static str) {
        "DO"
    }

    fn get_instance_name(&self) -> (r: String) {
        self.instance_name.clone()
    }

    fn par(&self, i: usize) -> (p: &Parameter) {
        match i {
            0 => &self.frequency,
            1 => &self.x,
            2 => &self.xs,
            3 => &self.y,
            4 => &self.ys,
            _ => &self.damp,
        }
    }

    fn par_mut(&mut self, i: usize) -> (p: &mut Parameter) {
        match i {
            0 => &mut self.frequency,
            1 => &mut self.x,
            2 => &mut self.xs,
            3 => &mut self.y,
            4 => &mut self.ys,
            _ => &mut self.damp,
        }
    }

    fn parameter_count(&self) -> (n: usize) {
        6
    }

    fn parameter_names(&self) -> (r: Vec<String>) {
        let r = prefixed_parameter_names(
            &self.instance_name,
            vec![
                self.frequency.name,
                self.x.name,
                self.xs.name,
                self.y.name,
                self.ys.name,
                self.damp.name,
            ],
        );
        assert(names_of(r@) =~= self.full_names());
        r
    }
}

/// An oscillator whose restoring force is raised to a power, with
/// parameters `frequency`, `x`, `xs`, `y`, `ys`, `damp`, `power` and `alpha`.
pub struct PowerOscillatorGadget {
    frequency: Parameter,
    x: Parameter,
    xs: Parameter,
    y: Parameter,
    ys: Parameter,
    damp: Parameter,
    power: Parameter,
    alpha: Parameter,
    instance_name: String,
}

impl PowerOscillatorGadget {
    /// A power oscillator at 440 Hz that starts at `x = 1`, `y = 0`, with
    /// damping 1 and power and rotation 0.
    pub fn new(name: &str) -> (g: PowerOscillatorGadget)
        ensures
            g.inv(),
            g.instance_name() == name@,
            g.kind_name() == "PwO"@,
            g.params() == seq![
                fresh("frequency", BITS_440),
                fresh("x", BITS_ONE),
                fresh("xs", BITS_ZERO),
                fresh("y", BITS_ZERO),
                fresh("ys", BITS_ZERO),
                fresh("damp", BITS_ONE),
                fresh("power", BITS_ZERO),
                fresh("alpha", BITS_ZERO),
            ],
            g.full_names() == prefixed_names(name@, g.params()),
    {
        PowerOscillatorGadget {
            frequency: Parameter::new("frequency", BITS_440),
            x: Parameter::new("x", BITS_ONE),
            xs: Parameter::new("xs", BITS_ZERO),
            y: Parameter::new("y", BITS_ZERO),
            ys: Parameter::new("ys", BITS_ZERO),
            damp: Parameter::new("damp", BITS_ONE),
            power: Parameter::new("power", BITS_ZERO),
            alpha: Parameter::new("alpha", BITS_ZERO),
            instance_name: name.to_owned(),
        }
    }

    /// Every PowerOscillatorGadget has 8 parameters, found under its instance name,
    /// a colon, a space and the parameter's name.
    pub proof fn lemma_layout(&self)
        ensures
            self.inv(),
            self.params().len() == 8,
            self.full_names() == prefixed_names(self.instance_name(), self.params()),
            self.kind_name() == "PwO"@,
    {
    }
}

impl Gadget for PowerOscillatorGadget {
    closed spec fn params(&self) -> Seq<Parameter> {
        seq![self.frequency, self.x, self.xs, self.y, self.ys, self.damp, self.power, self.alpha]
    }

    closed spec fn full_names(&self) -> Seq<Seq<char>> {
        prefixed_names(self.instance_name@, self.params())
    }

    closed spec fn instance_name(&self) -> Seq<char> {
        self.instance_name@
    }

    closed spec fn kind_name(&self) -> Seq<char> {
        "PwO"@
    }

    /// Every value is well-formed: its parameters are its fixed fields.
    closed spec fn inv(&self) -> bool {
        true
    }

    proof fn lemma_inv(&self) {
    }

    fn name(&self) -> (r: &'static str) {
        "PwO"
    }

    fn get_instance_name(&self) -> (r: String) {
        self.instance_name.clone()
    }

    fn par(&self, i: usize) -> (p: &Parameter) {
        match i {
            0 => &self.frequency,
            1 => &self.x,
            2 => &self.xs,
            3 => &self.y,
            4 => &self.ys,
            5 => &self.damp,
            6 => &self.power,
            _ => &self.alpha,
        }
    }

    fn par_mut(&mut self, i: usize) -> (p: &mut Parameter) {
        match i {
            0 => &mut self.frequency,
            1 => &mut self.x,
            2 => &mut self.xs,
            3 => &mut self.y,
            4 => &mut self.ys,
            5 => &mut self.damp,
            6 => &mut self.power,
            _ => &mut self.alpha,
        }
    }

    fn parameter_count(&self) -> (n: usize) {
        8
    }

    fn parameter_names(&self) -> (r: Vec<String>) {
        let r = prefixed_parameter_names(
            &self.instance_name,
            vec![
                self.frequency.name,
                self.x.name,
                self.xs.name,
                self.y.name,
                self.ys.name,
                self.damp.name,
                self.power.name,
                self.alpha.name,
            ],
        );
        assert(names_of(r@) =~= self.full_names());
        r
    }
}

} // verus!
