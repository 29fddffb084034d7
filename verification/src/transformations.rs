//! Gadgets that transform signals: their parameters and how they are
//! addressed.
//!
//! What a transformation computes on each sample is floating-point work
//! and is done by the program that drives the engine.
use vstd::prelude::*;
use crate::gadget::{
    fresh, names_of, prefixed_names, prefixed_parameter_names, Gadget, Parameter, BITS_ZERO,
};

verus! {

/// Writes the absolute value of `inp` to `out`.
pub struct AbsGadget {
    inp: Parameter,
    out: Parameter,
    instance_name: String,
}

impl AbsGadget {
    /// An absolute-value gadget with `inp` and `out` at 0.
    pub fn new(name: &str) -> (g: AbsGadget)
        ensures
            g.inv(),
            g.instance_name() == name@,
            g.kind_name() == "ABS"@,
            g.params() == seq![
                fresh("inp", BITS_ZERO),
                fresh("out", BITS_ZERO),
            ],
            g.full_names() == prefixed_names(name@, g.params()),
    {
        AbsGadget {
            inp: Parameter::new("inp", BITS_ZERO),
            out: Parameter::new("out", BITS_ZERO),
            instance_name: name.to_owned(),
        }
    }

    /// Every AbsGadget has 2 parameters, found under its instance name,
    /// a colon, a space and the parameter's name.
    pub proof fn lemma_layout(&self)
        ensures
            self.inv(),
            self.params().len() == 2,
            self.full_names() == prefixed_names(self.instance_name(), self.params()),
            self.kind_name() == "ABS"@,
    {
    }
}

impl Gadget for AbsGadget {
    closed spec fn params(&self) -> Seq<Parameter> {
        seq![self.inp, self.out]
    }

    closed spec fn full_names(&self) -> Seq<Seq<char>> {
        prefixed_names(self.instance_name@, self.params())
    }

    closed spec fn instance_name(&self) -> Seq<char> {
        self.instance_name@
    }

    closed spec fn kind_name(&self) -> Seq<char> {
        "ABS"@
    }

    /// Every value is well-formed: its parameters are its fixed fields.
    closed spec fn inv(&self) -> bool {
        true
    }

    proof fn lemma_inv(&self) {
    }

    fn name(&self) -> (r: &'static str) {
        "ABS"
    }

    fn get_instance_name(&self) -> (r: String) {
        self.instance_name.clone()
    }

    fn par(&self, i: usize) -> (p: &Parameter) {
        match i {
            0 => &self.inp,
            _ => &self.out,
        }
    }

    fn par_mut(&mut self, i: usize) -> (p: &mut Parameter) {
        match i {
            0 => &mut self.inp,
            _ => &mut self.out,
        }
    }

    fn parameter_count(&self) -> (n: usize) {
        2
    }

    fn parameter_names(&self) -> (r: Vec<String>) {
        let r = prefixed_parameter_names(
            &self.instance_name,
            vec![
                self.inp.name,
                self.out.name,
            ],
        );
        assert(names_of(r@) =~= self.full_names());
        r
    }
}

/// Writes `|x| - |y|` to `out`.
pub struct DoubleAbsGadget {
    x: Parameter,
    y: Parameter,
    out: Parameter,
    instance_name: String,
}

impl DoubleAbsGadget {
    /// A gadget with `x`, `y` and `out` at 0.
    pub fn new(name: &str) -> (g: DoubleAbsGadget)
        ensures
            g.inv(),
            g.instance_name() == name@,
            g.kind_name() == "DABS"@,
            g.params() == seq![
                fresh("x", BITS_ZERO),
                fresh("y", BITS_ZERO),
                fresh("out", BITS_ZERO),
            ],
            g.full_names() == prefixed_names(name@, g.params()),
    {
        DoubleAbsGadget {
            x: Parameter::new("x", BITS_ZERO),
            y: Parameter::new("y", BITS_ZERO),
            out: Parameter::new("out", BITS_ZERO),
            instance_name: name.to_owned(),
        }
    }

    /// Every DoubleAbsGadget has 3 parameters, found under its instance name,
    /// a colon, a space and the parameter's name.
    pub proof fn lemma_layout(&self)
        ensures
            self.inv(),
            self.params().len() == 3,
            self.full_names() == prefixed_names(self.instance_name(), self.params()),
            self.kind_name() == "DABS"@,
    {
    }
}

impl Gadget for DoubleAbsGadget {
    closed spec fn params(&self) -> Seq<Parameter> {
        seq![self.x, self.y, self.out]
    }

    closed spec fn full_names(&self) -> Seq<Seq<char>> {
        prefixed_names(self.instance_name@, self.params())
    }

    closed spec fn instance_name(&self) -> Seq<char> {
        self.instance_name@
    }

    closed spec fn kind_name(&self) -> Seq<char> {
        "DABS"@
    }

    /// Every value is well-formed: its parameters are its fixed fields.
    closed spec fn inv(&self) -> bool {
        true
    }

    proof fn lemma_inv(&self) {
    }

    fn name(&self) -> (r: &'static str) {
        "DABS"
    }

    fn get_instance_name(&self) -> (r: String) {
        self.instance_name.clone()
    }

    fn par(&self, i: usize) -> (p: &Parameter) {
        match i {
            0 => &self.x,
            1 => &self.y,
            _ => &self.out,
        }
    }

    fn par_mut(&mut self, i: usize) -> (p: &mut Parameter) {
        match i {
            0 => &mut self.x,
            1 => &mut self.y,
            _ => &mut self.out,
        }
    }

    fn parameter_count(&self) -> (n: usize) {
        3
    }

    fn parameter_names(&self) -> (r: Vec<String>) {
        let r = prefixed_parameter_names(
            &self.instance_name,
            vec![
                self.x.name,
                self.y.name,
                self.out.name,
            ],
        );
        assert(names_of(r@) =~= self.full_names());
        r
    }
}

/// Writes the amplitude and the phase of the point `(x, y)`.
pub struct AmplitudePhaseGadget {
    x: Parameter,
    y: Parameter,
    amplitude: Parameter,
    phase: Parameter,
    instance_name: String,
}

impl AmplitudePhaseGadget {
    /// A gadget with `x`, `y`, `amplitude` and `phase` at 0.
    pub fn new(name: &str) -> (g: AmplitudePhaseGadget)
        ensures
            g.inv(),
            g.instance_name() == name@,
            g.kind_name() == "DABS"@,
            g.params() == seq![
                fresh("x", BITS_ZERO),
                fresh("y", BITS_ZERO),
                fresh("amplitude", BITS_ZERO),
                fresh("phase", BITS_ZERO),
            ],
            g.full_names() == prefixed_names(name@, g.params()),
    {
        AmplitudePhaseGadget {
            x: Parameter::new("x", BITS_ZERO),
            y: Parameter::new("y", BITS_ZERO),
            amplitude: Parameter::new("amplitude", BITS_ZERO),
            phase: Parameter::new("phase", BITS_ZERO),
            instance_name: name.to_owned(),
        }
    }

    /// Every AmplitudePhaseGadget has 4 parameters, found under its instance name,
    /// a colon, a space and the parameter's name.
    pub proof fn lemma_layout(&self)
        ensures
            self.inv(),
            self.params().len() == 4,
            self.full_names() == prefixed_names(self.instance_name(), self.params()),
            self.kind_name() == "DABS"@,
    {
    }
}

impl Gadget for AmplitudePhaseGadget {
    closed spec fn params(&self) -> Seq<Parameter> {
        seq![self.x, self.y, self.amplitude, self.phase]
    }

    closed spec fn full_names(&self) -> Seq<Seq<char>> {
        prefixed_names(self.instance_name@, self.params())
    }

    closed spec fn instance_name(&self) -> Seq<char> {
        self.instance_name@
    }

    closed spec fn kind_name(&self) -> Seq<char> {
        "DABS"@
    }

    /// Every value is well-formed: its parameters are its fixed fields.
    closed spec fn inv(&self) -> bool {
        true
    }

    proof fn lemma_inv(&self) {
    }

    fn name(&self) -> (r: &'static str) {
        "DABS"
    }

    fn get_instance_name(&self) -> (r: String) {
        self.instance_name.clone()
    }

    fn par(&self, i: usize) -> (p: &Parameter) {
        match i {
            0 => &self.x,
            1 => &self.y,
            2 => &self.amplitude,
            _ => &self.phase,
        }
    }

    fn par_mut(&mut self, i: usize) -> (p: &mut Parameter) {
        match i {
            0 => &mut self.x,
            1 => &mut self.y,
            2 => &mut self.amplitude,
            _ => &mut self.phase,
        }
    }

    fn parameter_count(&self) -> (n: usize) {
        4
    }

    fn parameter_names(&self) -> (r: Vec<String>) {
        let r = prefixed_parameter_names(
            &self.instance_name,
            vec![
                self.x.name,
                self.y.name,
                self.amplitude.name,
                self.phase.name,
            ],
        );
        assert(names_of(r@) =~= self.full_names());
        r
    }
}

} // verus!
