//! A container of gadgets that is itself a gadget: its parameters are those
//! of its gadgets, one gadget after the other.
use vstd::prelude::*;
use crate::engine::OutputGadget;
use crate::gadget::{names_of, Gadget, Parameter};
use crate::oscillators::{DampedOscillatorGadget, PowerOscillatorGadget};
use crate::transformations::{AbsGadget, AmplitudePhaseGadget, DoubleAbsGadget};

verus! {

/// One gadget of any of the kinds that a container can hold.
pub enum AnyGadget {
    Output(OutputGadget),
    DampedOscillator(DampedOscillatorGadget),
    PowerOscillator(PowerOscillatorGadget),
    Abs(AbsGadget),
    DoubleAbs(DoubleAbsGadget),
    AmplitudePhase(AmplitudePhaseGadget),
}

impl Gadget for AnyGadget {
    open spec fn params(&self) -> Seq<Parameter> {
        match self {
            AnyGadget::Output(g) => g.params(),
            AnyGadget::DampedOscillator(g) => g.params(),
            AnyGadget::PowerOscillator(g) => g.params(),
            AnyGadget::Abs(g) => g.params(),
            AnyGadget::DoubleAbs(g) => g.params(),
            AnyGadget::AmplitudePhase(g) => g.params(),
        }
    }

    open spec fn full_names(&self) -> Seq<Seq<char>> {
        match self {
            AnyGadget::Output(g) => g.full_names(),
            AnyGadget::DampedOscillator(g) => g.full_names(),
            AnyGadget::PowerOscillator(g) => g.full_names(),
            AnyGadget::Abs(g) => g.full_names(),
            AnyGadget::DoubleAbs(g) => g.full_names(),
            AnyGadget::AmplitudePhase(g) => g.full_names(),
        }
    }

    open spec fn instance_name(&self) -> Seq<char> {
        match self {
            AnyGadget::Output(g) => g.instance_name(),
            AnyGadget::DampedOscillator(g) => g.instance_name(),
            AnyGadget::PowerOscillator(g) => g.instance_name(),
            AnyGadget::Abs(g) => g.instance_name(),
            AnyGadget::DoubleAbs(g) => g.instance_name(),
            AnyGadget::AmplitudePhase(g) => g.instance_name(),
        }
    }

    open spec fn kind_name(&self) -> Seq<char> {
        match self {
            AnyGadget::Output(g) => g.kind_name(),
            AnyGadget::DampedOscillator(g) => g.kind_name(),
            AnyGadget::PowerOscillator(g) => g.kind_name(),
            AnyGadget::Abs(g) => g.kind_name(),
            AnyGadget::DoubleAbs(g) => g.kind_name(),
            AnyGadget::AmplitudePhase(g) => g.kind_name(),
        }
    }

    open spec fn inv(&self) -> bool {
        match self {
            AnyGadget::Output(g) => g.inv(),
            AnyGadget::DampedOscillator(g) => g.inv(),
            AnyGadget::PowerOscillator(g) => g.inv(),
            AnyGadget::Abs(g) => g.inv(),
            AnyGadget::DoubleAbs(g) => g.inv(),
            AnyGadget::AmplitudePhase(g) => g.inv(),
        }
    }

    proof fn lemma_inv(&self) {
        match self {
            AnyGadget::Output(g) => g.lemma_inv(),
            AnyGadget::DampedOscillator(g) => g.lemma_inv(),
            AnyGadget::PowerOscillator(g) => g.lemma_inv(),
            AnyGadget::Abs(g) => g.lemma_inv(),
            AnyGadget::DoubleAbs(g) => g.lemma_inv(),
            AnyGadget::AmplitudePhase(g) => g.lemma_inv(),
        }
    }

    fn name(&self) -> (r: &'static str) {
        match self {
            AnyGadget::Output(g) => g.name(),
            AnyGadget::DampedOscillator(g) => g.name(),
            AnyGadget::PowerOscillator(g) => g.name(),
            AnyGadget::Abs(g) => g.name(),
            AnyGadget::DoubleAbs(g) => g.name(),
            AnyGadget::AmplitudePhase(g) => g.name(),
        }
    }

    fn get_instance_name(&self) -> (r: String) {
        match self {
            AnyGadget::Output(g) => g.get_instance_name(),
            AnyGadget::DampedOscillator(g) => g.get_instance_name(),
            AnyGadget::PowerOscillator(g) => g.get_instance_name(),
            AnyGadget::Abs(g) => g.get_instance_name(),
            AnyGadget::DoubleAbs(g) => g.get_instance_name(),
            AnyGadget::AmplitudePhase(g) => g.get_instance_name(),
        }
    }

    fn par(&self, i: usize) -> (p: &Parameter) {
        match self {
            AnyGadget::Output(g) => g.par(i),
            AnyGadget::DampedOscillator(g) => g.par(i),
            AnyGadget::PowerOscillator(g) => g.par(i),
            AnyGadget::Abs(g) => g.par(i),
            AnyGadget::DoubleAbs(g) => g.par(i),
            AnyGadget::AmplitudePhase(g) => g.par(i),
        }
    }

    fn par_mut(&mut self, i: usize) -> (p: &mut Parameter) {
        match self {
            AnyGadget::Output(g) => g.par_mut(i),
            AnyGadget::DampedOscillator(g) => g.par_mut(i),
            AnyGadget::PowerOscillator(g) => g.par_mut(i),
            AnyGadget::Abs(g) => g.par_mut(i),
            AnyGadget::DoubleAbs(g) => g.par_mut(i),
            AnyGadget::AmplitudePhase(g) => g.par_mut(i),
        }
    }

    fn parameter_count(&self) -> (n: usize) {
        match self {
            AnyGadget::Output(g) => g.parameter_count(),
            AnyGadget::DampedOscillator(g) => g.parameter_count(),
            AnyGadget::PowerOscillator(g) => g.parameter_count(),
            AnyGadget::Abs(g) => g.parameter_count(),
            AnyGadget::DoubleAbs(g) => g.parameter_count(),
            AnyGadget::AmplitudePhase(g) => g.parameter_count(),
        }
    }

    fn parameter_names(&self) -> (r: Vec<String>) {
        match self {
            AnyGadget::Output(g) => g.parameter_names(),
            AnyGadget::DampedOscillator(g) => g.parameter_names(),
            AnyGadget::PowerOscillator(g) => g.parameter_names(),
            AnyGadget::Abs(g) => g.parameter_names(),
            AnyGadget::DoubleAbs(g) => g.parameter_names(),
            AnyGadget::AmplitudePhase(g) => g.parameter_names(),
        }
    }
}

/// The concatenation of `f` of each gadget, in order.
pub open spec fn concat_map<T>(gs: Seq<AnyGadget>, f: spec_fn(AnyGadget) -> Seq<T>) -> Seq<T>
    decreases gs.len(),
{
    if gs.len() == 0 {
        Seq::empty()
    } else {
        concat_map(gs.drop_last(), f) + f(gs.last())
    }
}

/// The parameters of a sequence of gadgets, one gadget after the other.
pub open spec fn concat_params(gs: Seq<AnyGadget>) -> Seq<Parameter> {
    concat_map(gs, |g: AnyGadget| g.params())
}

/// The parameter names of a sequence of gadgets, one gadget after the other.
pub open spec fn concat_names(gs: Seq<AnyGadget>) -> Seq<Seq<char>> {
    concat_map(gs, |g: AnyGadget| g.full_names())
}

/// Taking one more gadget appends its part.
pub proof fn lemma_concat_take_step<T>(gs: Seq<AnyGadget>, f: spec_fn(AnyGadget) -> Seq<T>, j: int)
    requires
        0 <= j < gs.len(),
    ensures
        concat_map(gs.take(j + 1), f) == concat_map(gs.take(j), f) + f(gs[j]),
{
    assert(gs.take(j + 1).drop_last() =~= gs.take(j));
}

/// The part of the first `k` gadgets is a prefix of the whole.
pub proof fn lemma_concat_prefix<T>(gs: Seq<AnyGadget>, f: spec_fn(AnyGadget) -> Seq<T>, k: int)
    requires
        0 <= k <= gs.len(),
    ensures
        concat_map(gs.take(k), f).len() <= concat_map(gs, f).len(),
        concat_map(gs, f).subrange(0, concat_map(gs.take(k), f).len() as int) =~= concat_map(
            gs.take(k),
            f,
        ),
    decreases gs.len(),
{
    if k == gs.len() {
        assert(gs.take(k) =~= gs);
    } else {
        let front = gs.drop_last();
        assert(front.take(k) =~= gs.take(k));
        lemma_concat_prefix(front, f, k);
    }
}

/// Replacing gadget `j` by one with the same part leaves the whole as it is.
pub proof fn lemma_concat_update_same<T>(
    gs: Seq<AnyGadget>,
    f: spec_fn(AnyGadget) -> Seq<T>,
    j: int,
    g: AnyGadget,
)
    requires
        0 <= j < gs.len(),
        f(g) == f(gs[j]),
    ensures
        concat_map(gs.update(j, g), f) == concat_map(gs, f),
    decreases gs.len(),
{
    let u = gs.update(j, g);
    if j == gs.len() - 1 {
        assert(u.drop_last() =~= gs.drop_last());
    } else {
        assert(u.drop_last() =~= gs.drop_last().update(j, g));
        lemma_concat_update_same(gs.drop_last(), f, j, g);
    }
}

/// Changing element `k` of the part of gadget `j` changes the element at
/// `k` plus the length of the part before gadget `j`.
pub proof fn lemma_concat_update<T>(
    gs: Seq<AnyGadget>,
    f: spec_fn(AnyGadget) -> Seq<T>,
    j: int,
    g: AnyGadget,
    k: int,
    x: T,
)
    requires
        0 <= j < gs.len(),
        0 <= k < f(gs[j]).len(),
        f(g) == f(gs[j]).update(k, x),
    ensures
        concat_map(gs.update(j, g), f) == concat_map(gs, f).update(
            concat_map(gs.take(j), f).len() + k,
            x,
        ),
    decreases gs.len(),
{
    let u = gs.update(j, g);
    if j == gs.len() - 1 {
        assert(u.drop_last() =~= gs.drop_last());
        assert(gs.take(j) =~= gs.drop_last());
        assert(concat_map(u, f) =~= concat_map(gs, f).update(
            concat_map(gs.take(j), f).len() + k,
            x,
        ));
    } else {
        let front = gs.drop_last();
        assert(u.drop_last() =~= front.update(j, g));
        assert(front.take(j) =~= gs.take(j));
        lemma_concat_update(front, f, j, g, k, x);
        lemma_concat_prefix(front, f, j + 1);
        lemma_concat_take_step(front, f, j);
        assert(concat_map(u, f) =~= concat_map(gs, f).update(
            concat_map(gs.take(j), f).len() + k,
            x,
        ));
    }
}

/// Each well-formed gadget has as many names as parameters, so the whole
/// has as many names as parameters.
pub proof fn lemma_concat_lengths(gs: Seq<AnyGadget>)
    requires
        forall|j: int| 0 <= j < gs.len() ==> (#[trigger] gs[j]).inv(),
    ensures
        concat_names(gs).len() == concat_params(gs).len(),
    decreases gs.len(),
{
    if gs.len() > 0 {
        gs.last().lemma_inv();
        lemma_concat_lengths(gs.drop_last());
    }
}

/// A gadget that holds other gadgets; its parameters are theirs, one
/// gadget after the other.
pub struct GadgetContainer {
    pub container: Vec<AnyGadget>,
}

impl GadgetContainer {
    /// An empty container.
    pub fn new() -> (c: Self)
        ensures
            c.container@ == Seq::<AnyGadget>::empty(),
            c.inv(),
            c.params() == Seq::<Parameter>::empty(),
            c.full_names() == Seq::<Seq<char>>::empty(),
            c.instance_name() == "container"@,
            c.kind_name() == "container"@,
    {
        GadgetContainer { container: Vec::new() }
    }

    /// The gadget that holds parameter `i`, and how many parameters the
    /// gadgets before it hold.
    fn locate(&self, i: usize) -> (r: (usize, usize))
        requires
            self.inv(),
            i < self.params().len(),
        ensures
            r.0 < self.container@.len(),
            r.1 == concat_params(self.container@.take(r.0 as int)).len(),
            r.1 <= i < r.1 + self.container@[r.0 as int].params().len(),
    {
        let ghost gs = self.container@;
        let ghost f = |g: AnyGadget| g.params();
        let mut count: usize = 0;
        let mut j: usize = 0;
        while j < self.container.len()
            invariant
                self.inv(),
                gs == self.container@,
                f == (|g: AnyGadget| g.params()),
                i < concat_params(gs).len(),
                j <= gs.len(),
                count == concat_params(gs.take(j as int)).len(),
                count <= i,
            decreases gs.len() - j,
        {
            proof {
                lemma_concat_take_step(gs, f, j as int);
                lemma_concat_prefix(gs, f, j + 1);
                gs[j as int].lemma_inv();
            }
            let c = self.container[j].parameter_count();
            if i < count + c {
                return (j, count);
            }
            count = count + c;
            j = j + 1;
        }
        proof {
            assert(gs.take(j as int) =~= gs);
        }
        (j, count)
    }
}

impl Gadget for GadgetContainer {
    open spec fn params(&self) -> Seq<Parameter> {
        concat_params(self.container@)
    }

    open spec fn full_names(&self) -> Seq<Seq<char>> {
        concat_names(self.container@)
    }

    open spec fn instance_name(&self) -> Seq<char> {
        "container"@
    }

    open spec fn kind_name(&self) -> Seq<char> {
        "container"@
    }

    open spec fn inv(&self) -> bool {
        &&& forall|j: int| 0 <= j < self.container@.len() ==> (#[trigger] self.container@[j]).inv()
        &&& concat_params(self.container@).len() <= usize::MAX
    }

    proof fn lemma_inv(&self) {
        lemma_concat_lengths(self.container@);
    }

    fn name(&self) -> (r: &'static str) {
        "container"
    }

    fn get_instance_name(&self) -> (r: String) {
        self.name().to_owned()
    }

    fn par(&self, i: usize) -> (p: &Parameter) {
        let (j, count) = self.locate(i);
        proof {
            let gs = self.container@;
            let f = |g: AnyGadget| g.params();
            lemma_concat_take_step(gs, f, j as int);
            lemma_concat_prefix(gs, f, j + 1);
            gs[j as int].lemma_inv();
            let whole = concat_params(gs);
            let upto = concat_params(gs.take(j + 1));
            assert(whole.subrange(0, upto.len() as int)[i as int] == whole[i as int]);
            assert(upto[i as int] == gs[j as int].params()[i - count]);
        }
        self.container[j].par(i - count)
    }

    fn par_mut(&mut self, i: usize) -> (p: &mut Parameter) {
        let (j, count) = self.locate(i);
        let ghost gs = self.container@;
        proof {
            let f = |g: AnyGadget| g.params();
            lemma_concat_take_step(gs, f, j as int);
            lemma_concat_prefix(gs, f, j + 1);
            gs[j as int].lemma_inv();
            let whole = concat_params(gs);
            let upto = concat_params(gs.take(j + 1));
            assert(whole.subrange(0, upto.len() as int)[i as int] == whole[i as int]);
            assert(upto[i as int] == gs[j as int].params()[i - count]);
        }
        proof {
            let f = |g: AnyGadget| g.params();
            let fnames = |g: AnyGadget| g.full_names();
            let k = (i - count) as int;
            assert forall|g1: AnyGadget|
                g1.params() == gs[j as int].params().update(
                    k,
                    g1.params()[k],
                ) implies #[trigger] concat_params(gs.update(j as int, g1)) == concat_params(
                gs,
            ).update(count + k, g1.params()[k]) by {
                lemma_concat_update(gs, f, j as int, g1, k, g1.params()[k]);
            }
            assert forall|g1: AnyGadget|
                g1.full_names() == gs[j as int].full_names() implies #[trigger] concat_names(
                gs.update(j as int, g1),
            ) == concat_names(gs) by {
                lemma_concat_update_same(gs, fnames, j as int, g1);
            }
        }
        let p = self.container[j].par_mut(i - count);
        p
    }

    fn parameter_count(&self) -> (n: usize) {
        let ghost gs = self.container@;
        let ghost f = |g: AnyGadget| g.params();
        let mut count: usize = 0;
        let mut j: usize = 0;
        while j < self.container.len()
            invariant
                self.inv(),
                gs == self.container@,
                f == (|g: AnyGadget| g.params()),
                j <= gs.len(),
                count == concat_params(gs.take(j as int)).len(),
            decreases gs.len() - j,
        {
            proof {
                lemma_concat_take_step(gs, f, j as int);
                lemma_concat_prefix(gs, f, j + 1);
                gs[j as int].lemma_inv();
            }
            count = count + self.container[j].parameter_count();
            j = j + 1;
        }
        proof {
            assert(gs.take(j as int) =~= gs);
        }
        count
    }

    fn parameter_names(&self) -> (r: Vec<String>) {
        let ghost gs = self.container@;
        let ghost f = |g: AnyGadget| g.full_names();
        let mut p: Vec<String> = Vec::new();
        let mut j: usize = 0;
        while j < self.container.len()
            invariant
                self.inv(),
                gs == self.container@,
                f == (|g: AnyGadget| g.full_names()),
                j <= gs.len(),
                names_of(p@) == concat_names(gs.take(j as int)),
            decreases gs.len() - j,
        {
            proof {
                lemma_concat_take_step(gs, f, j as int);
            }
            let names = self.container[j].parameter_names();
            let ghost before = names_of(p@);
            let mut k: usize = 0;
            while k < names.len()
                invariant
                    k <= names@.len(),
                    names_of(p@) == before + names_of(names@).take(k as int),
                decreases names@.len() - k,
            {
                let s = names[k].clone();
                let ghost p0 = p@;
                p.push(s);
                proof {
                    assert(names_of(p@) =~= names_of(p0).push(names@[k as int]@));
                    assert(names_of(names@).take(k + 1) =~= names_of(names@).take(k as int).push(
                        names@[k as int]@,
                    ));
                    assert(names_of(p@) =~= before + names_of(names@).take(k + 1));
                }
                k = k + 1;
            }
            proof {
                assert(names_of(names@).take(k as int) =~= names_of(names@));
            }
            j = j + 1;
        }
        proof {
            assert(gs.take(j as int) =~= gs);
        }
        p
    }
}

} // verus!
