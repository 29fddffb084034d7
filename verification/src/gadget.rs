//! Parameters, links between parameters, and the `Gadget` interface.
//!
//! A sample value is carried as the bit pattern of an IEEE-754 single
//! precision number (`u32`): the logic here only stores, copies and
//! compares such values, it never computes with them.
use vstd::prelude::*;

verus! {

/// The sample rate of the synthesiser, in samples per second.
pub const SAMPLERATE: u32 = 48000;

/// What determines the value of a parameter: a constant of its own
/// (the bits of a sample value), or the name of another parameter
/// whose value it shares.
#[derive(Debug, Clone)]
pub enum Link {
    Value(u32),
    Link(String),
}

/// A named input or output of a gadget.
///
/// `slot` is the index in the engine's sample buffer that the parameter
/// reads and writes once it is bound; `None` while it is unbound.
pub struct Parameter {
    pub slot: Option<usize>,
    pub name: &'static str,
    pub link: Link,
}

/// The bits of the sample value 0.0.
pub const BITS_ZERO: u32 = 0x0000_0000;

/// The bits of the sample value 1.0.
pub const BITS_ONE: u32 = 0x3f80_0000;

/// The bits of the sample value 440.0 (concert pitch, in hertz).
pub const BITS_440: u32 = 0x43dc_0000;

/// A parameter as `Parameter::new` makes it.
pub open spec fn fresh(name: &'static str, value: u32) -> Parameter {
    Parameter { slot: None, name: name, link: Link::Value(value) }
}

/// The name that a link points to.
pub open spec fn link_target(l: Link) -> Seq<char> {
    match l {
        Link::Link(s) => s@,
        Link::Value(_) => Seq::empty(),
    }
}

/// A parameter is free when it carries its own value.
pub open spec fn is_free_link(l: Link) -> bool {
    l is Value
}

/// The views of a vector of strings.
pub open spec fn names_of(v: Seq<String>) -> Seq<Seq<char>> {
    v.map_values(|s: String| s@)
}

/// The links of a sequence of parameters.
pub open spec fn links_of(ps: Seq<Parameter>) -> Seq<Link> {
    ps.map_values(|p: Parameter| p.link)
}

/// The address of a parameter of a gadget: the instance name, a colon,
/// a space and the parameter's own name.
pub open spec fn prefixed_name(instance: Seq<char>, name: Seq<char>) -> Seq<char> {
    instance + ": "@ + name
}

/// The addresses of all parameters of a gadget named `instance`.
pub open spec fn prefixed_names(instance: Seq<char>, ps: Seq<Parameter>) -> Seq<Seq<char>> {
    Seq::new(ps.len(), |i: int| prefixed_name(instance, ps[i].name@))
}

/// `i` is the first position at which `names` holds `name`.
pub open spec fn is_first_index(names: Seq<Seq<char>>, name: Seq<char>, i: int) -> bool {
    &&& 0 <= i < names.len()
    &&& names[i] == name
    &&& forall|j: int| 0 <= j < i ==> names[j] != name
}

/// The first position at which `names` holds `name`, if there is one.
pub open spec fn lookup(names: Seq<Seq<char>>, name: Seq<char>) -> Option<int> {
    if exists|i: int| is_first_index(names, name, i) {
        Some(choose|i: int| is_first_index(names, name, i))
    } else {
        None
    }
}

/// The number of free parameters.
pub open spec fn count_free(ps: Seq<Parameter>) -> nat
    decreases ps.len(),
{
    if ps.len() == 0 {
        0
    } else {
        count_free(ps.drop_last()) + if is_free_link(ps.last().link) {
            1nat
        } else {
            0nat
        }
    }
}

/// A first position is unique.
pub proof fn lemma_first_index_unique(names: Seq<Seq<char>>, name: Seq<char>, i: int)
    requires
        is_first_index(names, name, i),
    ensures
        lookup(names, name) == Some(i),
{
    let c = choose|k: int| is_first_index(names, name, k);
    assert(is_first_index(names, name, c));
    if c < i {
        assert(names[c] != name);
    } else if c > i {
        assert(names[i] != name);
    }
}

/// A name that occurs at `j` occurs first at some position.
proof fn lemma_first_index_exists(names: Seq<Seq<char>>, name: Seq<char>, j: int)
    requires
        0 <= j < names.len(),
        names[j] == name,
    ensures
        exists|i: int| is_first_index(names, name, i),
    decreases j,
{
    if forall|k: int| 0 <= k < j ==> names[k] != name {
        assert(is_first_index(names, name, j));
    } else {
        let k = choose|k: int| 0 <= k < j && names[k] == name;
        lemma_first_index_exists(names, name, k);
    }
}

/// `lookup` finds nothing exactly when the name does not occur.
pub proof fn lemma_lookup_none(names: Seq<Seq<char>>, name: Seq<char>)
    ensures
        lookup(names, name) is None <==> forall|j: int| 0 <= j < names.len() ==> names[j] != name,
{
    if exists|j: int| 0 <= j < names.len() && names[j] == name {
        let j = choose|j: int| 0 <= j < names.len() && names[j] == name;
        lemma_first_index_exists(names, name, j);
    }
}

/// What `lookup` returns is a first position.
pub proof fn lemma_lookup_some(names: Seq<Seq<char>>, name: Seq<char>)
    requires
        lookup(names, name) is Some,
    ensures
        is_first_index(names, name, lookup(names, name)->0),
{
}

/// The first position at which `names` holds `name`.
pub fn position(names: &Vec<String>, name: &String) -> (r: Option<usize>)
    ensures
        match lookup(names_of(names@), name@) {
            Some(i) => r == Some(i as usize),
            None => r is None,
        },
{
    let ghost view = names_of(names@);
    let mut i: usize = 0;
    while i < names.len()
        invariant
            view == names_of(names@),
            i <= names@.len(),
            forall|j: int| 0 <= j < i ==> view[j] != name@,
        decreases names@.len() - i,
    {
        assert(view[i as int] == names@[i as int]@);
        if names[i] == *name {
            proof {
                lemma_first_index_unique(view, name@, i as int);
            }
            return Some(i);
        }
        i = i + 1;
    }
    None
}

impl Parameter {
    /// A new unbound parameter that carries `value`.
    pub fn new(name: &'static str, value: u32) -> (p: Parameter)
        ensures
            p.slot is None,
            p.name == name,
            p.link == Link::Value(value),
    {
        Parameter { slot: None, name: name, link: Link::Value(value) }
    }

    /// Make the parameter free, carrying `value`.
    pub fn set_value(&mut self, value: u32)
        ensures
            final(self).link == Link::Value(value),
            final(self).slot == old(self).slot,
            final(self).name == old(self).name,
    {
        self.link = Link::Value(value);
    }

    /// Make the parameter share the value of the parameter named `value`.
    pub fn set_link(&mut self, value: &str)
        ensures
            final(self).link is Link,
            link_target(final(self).link) == value@,
            final(self).slot == old(self).slot,
            final(self).name == old(self).name,
    {
        self.link = Link::Link(value.to_owned());
    }

    /// Whether the parameter has no slot in a sample buffer.
    pub fn is_unbound(&self) -> (r: bool)
        ensures
            r == self.slot is None,
    {
        self.slot.is_none()
    }

    /// Whether the parameter carries its own value.
    pub fn is_free(&self) -> (r: bool)
        ensures
            r == is_free_link(self.link),
    {
        match self.link {
            Link::Value(_) => true,
            Link::Link(_) => false,
        }
    }

    /// Attach the parameter to slot `slot` of a sample buffer.
    pub fn bind(&mut self, slot: usize)
        ensures
            final(self).slot == Some(slot),
            final(self).name == old(self).name,
            final(self).link == old(self).link,
    {
        self.slot = Some(slot);
    }

    /// Detach the parameter from any sample buffer.
    pub fn unbind(&mut self)
        ensures
            final(self).slot is None,
            final(self).name == old(self).name,
            final(self).link == old(self).link,
    {
        self.slot = None;
    }

    /// The value of a bound parameter: what its slot of `buffer` holds.
    pub fn read(&self, buffer: &Vec<u32>) -> (r: u32)
        requires
            self.slot is Some,
            self.slot->0 < buffer.len(),
        ensures
            r == buffer@[self.slot->0 as int],
    {
        match self.slot {
            Some(k) => buffer[k],
            None => 0,
        }
    }

    /// Store `value` in the slot of `buffer` that a bound parameter has.
    pub fn write(&self, buffer: &mut Vec<u32>, value: u32)
        requires
            self.slot is Some,
            self.slot->0 < old(buffer).len(),
        ensures
            final(buffer)@ == old(buffer)@.update(self.slot->0 as int, value),
    {
        match self.slot {
            Some(k) => {
                buffer.set(k, value);
            },
            None => {},
        }
    }
}

/// A unit of the synthesiser that owns a fixed list of parameters.
pub trait Gadget {
    /// The parameters, in index order.
    spec fn params(&self) -> Seq<Parameter>;

    /// The name under which each parameter is found, in index order.
    spec fn full_names(&self) -> Seq<Seq<char>>;

    /// The name of this particular gadget.
    spec fn instance_name(&self) -> Seq<char>;

    /// The name of the kind of gadget.
    spec fn kind_name(&self) -> Seq<char>;

    /// Well-formedness.
    spec fn inv(&self) -> bool;

    /// A well-formed gadget has a name for each parameter, and its
    /// parameters can be counted in a `usize`.
    proof fn lemma_inv(&self)
        requires
            self.inv(),
        ensures
            self.full_names().len() == self.params().len(),
            self.params().len() <= usize::MAX,
    ;

    fn name(&self) -> (r: &'static str)
        ensures
            r@ == self.kind_name(),
    ;

    fn get_instance_name(&self) -> (r: String)
        requires
            self.inv(),
        ensures
            r@ == self.instance_name(),
    ;

    /// The parameter at index `i`.
    fn par(&self, i: usize) -> (p: &Parameter)
        requires
            self.inv(),
            i < self.params().len(),
        ensures
            *p == self.params()[i as int],
    ;

    /// The parameter at index `i`, to be changed in place.
    fn par_mut(&mut self, i: usize) -> (p: &mut Parameter)
        requires
            old(self).inv(),
            i < old(self).params().len(),
        ensures
            *p == old(self).params()[i as int],
            final(self).params() == old(self).params().update(i as int, *final(p)),
            final(self).instance_name() == old(self).instance_name(),
            final(p).name == p.name ==> final(self).inv(),
            final(p).name == p.name ==> final(self).full_names() == old(self).full_names(),
    ;

    fn parameter_count(&self) -> (n: usize)
        requires
            self.inv(),
        ensures
            n == self.params().len(),
    ;

    /// The names under which the parameters are found.
    fn parameter_names(&self) -> (r: Vec<String>)
        requires
            self.inv(),
        ensures
            names_of(r@) == self.full_names(),
    ;

    /// The first parameter found under `name`.
    fn parameter(&self, name: &str) -> (r: Option<&Parameter>)
        requires
            self.inv(),
        ensures
            match lookup(self.full_names(), name@) {
                Some(i) => r == Some(&self.params()[i]),
                None => r is None,
            },
    {
        let names = self.parameter_names();
        let key = name.to_owned();
        proof {
            self.lemma_inv();
        }
        match position(&names, &key) {
            Some(i) => Some(self.par(i)),
            None => None,
        }
    }

    /// The first parameter found under `name`, to be changed in place.
    fn parameter_mut(&mut self, name: &str) -> (r: Option<&mut Parameter>)
        requires
            old(self).inv(),
        ensures
            match lookup(old(self).full_names(), name@) {
                Some(i) => {
                    &&& r is Some
                    &&& *r->0 == old(self).params()[i]
                    &&& final(self).params() == old(self).params().update(i, *final(r->0))
                    &&& final(self).instance_name() == old(self).instance_name()
                    &&& final(r->0).name == r->0.name ==> final(self).inv()
                    &&& final(r->0).name == r->0.name ==> final(self).full_names() == old(self).full_names()
                },
                None => {
                    &&& r is None
                    &&& final(self).params() == old(self).params()
                    &&& final(self).full_names() == old(self).full_names()
                    &&& final(self).instance_name() == old(self).instance_name()
                    &&& final(self).inv()
                },
            },
    {
        let names = self.parameter_names();
        let key = name.to_owned();
        proof {
            self.lemma_inv();
        }
        match position(&names, &key) {
            Some(i) => Some(self.par_mut(i)),
            None => None,
        }
    }

    /// The number of free parameters.
    fn free_parameter_count(&self) -> (n: usize)
        requires
            self.inv(),
        ensures
            n == count_free(self.params()),
    {
        proof {
            self.lemma_inv();
        }
        let count = self.parameter_count();
        let mut n: usize = 0;
        let mut i: usize = 0;
        while i < count
            invariant
                self.inv(),
                count == self.params().len(),
                i <= count,
                n == count_free(self.params().take(i as int)),
                n <= i,
            decreases count - i,
        {
            assert(self.params().take(i + 1).drop_last() =~= self.params().take(i as int));
            if self.par(i).is_free() {
                n = n + 1;
            }
            i = i + 1;
        }
        assert(self.params().take(count as int) =~= self.params());
        n
    }
}

/// The addresses `"<instance>: <name>"` of the parameters named `names`
/// of the gadget named `instance`.
pub fn prefixed_parameter_names(instance: &String, names: Vec<&'static str>) -> (r: Vec<String>)
    ensures
        r@.len() == names@.len(),
        forall|j: int|
            0 <= j < names@.len() ==> #[trigger] r@[j]@ == prefixed_name(instance@, names@[j]@),
{
    let mut p: Vec<String> = Vec::with_capacity(names.len());
    let mut i: usize = 0;
    while i < names.len()
        invariant
            i <= names@.len(),
            p@.len() == i,
            forall|j: int|
                0 <= j < i ==> #[trigger] p@[j]@ == prefixed_name(instance@, names@[j]@),
        decreases names@.len() - i,
    {
        let mut s = instance.clone();
        s.append(": ");
        s.append(names[i]);
        p.push(s);
        i = i + 1;
    }
    p
}

} // verus!
