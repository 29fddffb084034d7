//! The engine: it gives every parameter of a gadget a slot in one sample
//! buffer, resolving links so that linked parameters share the slot of the
//! parameter they lead to, and it reads the output sample.
use vstd::prelude::*;
use crate::gadget::{
    count_free, fresh, is_free_link, link_target, links_of, lookup, names_of, position, Gadget, Link, Parameter,
    BITS_ZERO,
};

verus! {

/// The gadget that holds the output of the synthesiser: one parameter,
/// found under the name `OUT`.
pub struct OutputGadget {
    output: Parameter,
}

impl OutputGadget {
    /// An output gadget whose parameter carries 0.
    pub fn new() -> (g: OutputGadget)
        ensures
            g.inv(),
            g.instance_name() == "Output"@,
            g.kind_name() == "Output"@,
            g.params() == seq![fresh("OUT", BITS_ZERO)],
            g.full_names() == seq!["OUT"@],
    {
        OutputGadget { output: Parameter::new("OUT", BITS_ZERO) }
    }

    /// Every output gadget has one parameter, found under the name `OUT`.
    pub proof fn lemma_layout(&self)
        ensures
            self.inv(),
            self.params().len() == 1,
            self.full_names() == seq!["OUT"@],
            self.instance_name() == "Output"@,
            self.kind_name() == "Output"@,
    {
    }
}

impl Gadget for OutputGadget {
    closed spec fn params(&self) -> Seq<Parameter> {
        seq![self.output]
    }

    closed spec fn full_names(&self) -> Seq<Seq<char>> {
        seq!["OUT"@]
    }

    closed spec fn instance_name(&self) -> Seq<char> {
        "Output"@
    }

    closed spec fn kind_name(&self) -> Seq<char> {
        "Output"@
    }

    /// Every value is well-formed: its parameters are its fixed fields.
    closed spec fn inv(&self) -> bool {
        true
    }

    proof fn lemma_inv(&self) {
    }

    fn name(&self) -> (r: &'static str) {
        "Output"
    }

    fn get_instance_name(&self) -> (r: String) {
        "Output".to_owned()
    }

    fn par(&self, i: usize) -> (p: &Parameter) {
        &self.output
    }

    fn par_mut(&mut self, i: usize) -> (p: &mut Parameter) {
        &mut self.output
    }

    fn parameter_count(&self) -> (n: usize) {
        1
    }

    fn parameter_names(&self) -> (r: Vec<String>) {
        let r = vec!["OUT".to_owned()];
        assert(names_of(r@) =~= seq!["OUT"@]);
        r
    }
}

/// `name` ends a chain of links: no parameter is found under it, or the
/// one found carries its own value.
pub open spec fn is_root(names: Seq<Seq<char>>, links: Seq<Link>, name: Seq<char>) -> bool {
    match lookup(names, name) {
        Some(i) => is_free_link(links[i]),
        None => true,
    }
}

/// The name that the parameter found under `name` links to.
pub open spec fn next_name(names: Seq<Seq<char>>, links: Seq<Link>, name: Seq<char>) -> Seq<char> {
    match lookup(names, name) {
        Some(i) => link_target(links[i]),
        None => name,
    }
}

/// Where `n` steps along the links from `name` lead, stopping at an end.
pub open spec fn follow(names: Seq<Seq<char>>, links: Seq<Link>, name: Seq<char>, n: nat) -> Seq<
    char,
>
    decreases n,
{
    if n == 0 || is_root(names, links, name) {
        name
    } else {
        follow(names, links, next_name(names, links, name), (n - 1) as nat)
    }
}

/// Following the links from `name` reaches an end.
pub open spec fn chain_ends(names: Seq<Seq<char>>, links: Seq<Link>, name: Seq<char>) -> bool {
    exists|n: nat| is_root(names, links, #[trigger] follow(names, links, name, n))
}

/// The end of the chain of links from `name`.
pub open spec fn root_name(names: Seq<Seq<char>>, links: Seq<Link>, name: Seq<char>) -> Seq<char> {
    follow(
        names,
        links,
        name,
        choose|n: nat| is_root(names, links, #[trigger] follow(names, links, name, n)),
    )
}

/// The chain of links from `name` ends at a parameter that exists.
pub open spec fn resolves(names: Seq<Seq<char>>, links: Seq<Link>, name: Seq<char>) -> bool {
    &&& chain_ends(names, links, name)
    &&& lookup(names, root_name(names, links, name)) is Some
}

/// Every link leads, in finitely many steps, to a parameter that exists,
/// and the chain from the name `OUT` ends.
#[verifier::opaque]
pub open spec fn well_linked(names: Seq<Seq<char>>, links: Seq<Link>) -> bool {
    &&& forall|i: int|
        0 <= i < links.len() && links[i] is Link ==> resolves(
            names,
            links,
            link_target(#[trigger] links[i]),
        )
    &&& chain_ends(names, links, "OUT"@)
}

/// The value that a link carries (0 for a link to another parameter).
pub open spec fn link_value(l: Link) -> u32 {
    match l {
        Link::Value(v) => v,
        Link::Link(_) => 0,
    }
}

/// The values of the free parameters, in index order: the sample buffer
/// that binding makes.
pub open spec fn free_values(links: Seq<Link>) -> Seq<u32>
    decreases links.len(),
{
    if links.len() == 0 {
        Seq::empty()
    } else {
        free_values(links.drop_last()) + if is_free_link(links.last()) {
            seq![link_value(links.last())]
        } else {
            Seq::empty()
        }
    }
}

/// The number of free parameters before index `i`: the slot that binding
/// gives parameter `i` when it is free.
pub open spec fn free_rank(links: Seq<Link>, i: int) -> int {
    free_values(links.take(i)).len() as int
}

/// The index of the parameter whose slot parameter `i` takes: `i` itself
/// for a free parameter, the end of its chain of links otherwise.
pub open spec fn chain_end_index(names: Seq<Seq<char>>, links: Seq<Link>, i: int) -> int {
    if is_free_link(links[i]) {
        i
    } else {
        lookup(names, root_name(names, links, link_target(links[i])))->0
    }
}

/// The slot that binding gives parameter `i`: the rank among the free
/// parameters of the parameter whose slot it takes.
pub open spec fn bound_slot(names: Seq<Seq<char>>, links: Seq<Link>, i: int) -> int {
    free_rank(links, chain_end_index(names, links, i))
}

/// The slot that the output is read from after binding: that of the
/// parameter that the chain from `OUT` ends at, if one exists.
pub open spec fn output_slot(names: Seq<Seq<char>>, links: Seq<Link>) -> Option<usize> {
    match lookup(names, root_name(names, links, "OUT"@)) {
        Some(j) => Some(free_rank(links, j) as usize),
        None => None,
    }
}

/// Taking one more link appends its value when it is free.
pub proof fn lemma_free_values_step(links: Seq<Link>, i: int)
    requires
        0 <= i < links.len(),
    ensures
        free_values(links.take(i + 1)) == free_values(links.take(i)) + if is_free_link(
            links[i],
        ) {
            seq![link_value(links[i])]
        } else {
            Seq::<u32>::empty()
        },
{
    assert(links.take(i + 1).drop_last() =~= links.take(i));
}

/// The values of the first `i` links are a prefix of all the values.
pub proof fn lemma_free_values_prefix(links: Seq<Link>, i: int)
    requires
        0 <= i <= links.len(),
    ensures
        free_values(links.take(i)).len() <= free_values(links).len(),
        free_values(links).subrange(0, free_values(links.take(i)).len() as int) =~= free_values(
            links.take(i),
        ),
    decreases links.len(),
{
    if i == links.len() {
        assert(links.take(i) =~= links);
    } else {
        let front = links.drop_last();
        assert(front.take(i) =~= links.take(i));
        lemma_free_values_prefix(front, i);
    }
}

/// A free parameter's rank is a slot of the buffer, which holds its value.
pub proof fn lemma_free_rank(links: Seq<Link>, i: int)
    requires
        0 <= i < links.len(),
        is_free_link(links[i]),
    ensures
        0 <= free_rank(links, i) < free_values(links).len(),
        free_values(links)[free_rank(links, i)] == link_value(links[i]),
{
    lemma_free_values_step(links, i);
    lemma_free_values_prefix(links, i + 1);
    let whole = free_values(links);
    let upto = free_values(links.take(i + 1));
    let k = free_rank(links, i);
    assert(upto[k] == link_value(links[i]));
    assert(whole.subrange(0, upto.len() as int)[k] == whole[k]);
}

/// Ranks grow with the index.
pub proof fn lemma_free_rank_monotone(links: Seq<Link>, i: int, j: int)
    requires
        0 <= i <= j <= links.len(),
    ensures
        free_rank(links, i) <= free_rank(links, j),
{
    let front = links.take(j);
    lemma_free_values_prefix(front, i);
    assert(front.take(i) =~= links.take(i));
}

/// The number of free parameters is the number of free values.
pub proof fn lemma_count_free_values(ps: Seq<Parameter>)
    ensures
        count_free(ps) == free_values(links_of(ps)).len(),
    decreases ps.len(),
{
    if ps.len() > 0 {
        assert(links_of(ps).drop_last() =~= links_of(ps.drop_last()));
        lemma_count_free_values(ps.drop_last());
    }
}

/// From a name that ends its chain, following stays there.
pub proof fn lemma_follow_root(names: Seq<Seq<char>>, links: Seq<Link>, name: Seq<char>, n: nat)
    requires
        is_root(names, links, name),
    ensures
        follow(names, links, name, n) == name,
{
}

/// Once the chain has ended, more steps lead nowhere else.
pub proof fn lemma_follow_stable(
    names: Seq<Seq<char>>,
    links: Seq<Link>,
    name: Seq<char>,
    n: nat,
    m: nat,
)
    requires
        is_root(names, links, follow(names, links, name, n)),
        n <= m,
    ensures
        follow(names, links, name, m) == follow(names, links, name, n),
    decreases n,
{
    if n == 0 || is_root(names, links, name) {
        lemma_follow_root(names, links, name, m);
    } else {
        lemma_follow_stable(
            names,
            links,
            next_name(names, links, name),
            (n - 1) as nat,
            (m - 1) as nat,
        );
    }
}

/// Every end that the chain reaches is the chain's end.
pub proof fn lemma_root_name_unique(
    names: Seq<Seq<char>>,
    links: Seq<Link>,
    name: Seq<char>,
    n: nat,
)
    requires
        is_root(names, links, follow(names, links, name, n)),
    ensures
        chain_ends(names, links, name),
        root_name(names, links, name) == follow(names, links, name, n),
        is_root(names, links, root_name(names, links, name)),
{
    let k = choose|k: nat| is_root(names, links, #[trigger] follow(names, links, name, k));
    assert(is_root(names, links, follow(names, links, name, k)));
    if k <= n {
        lemma_follow_stable(names, links, name, k, n);
    } else {
        lemma_follow_stable(names, links, name, n, k);
    }
}

/// Following `a` steps and then `b` more is following `a + b` steps.
pub proof fn lemma_follow_add(
    names: Seq<Seq<char>>,
    links: Seq<Link>,
    name: Seq<char>,
    a: nat,
    b: nat,
)
    ensures
        follow(names, links, name, a + b) == follow(
            names,
            links,
            follow(names, links, name, a),
            b,
        ),
    decreases a,
{
    if a == 0 {
    } else if is_root(names, links, name) {
        lemma_follow_root(names, links, name, a + b);
        lemma_follow_root(names, links, name, b);
    } else {
        lemma_follow_add(names, links, next_name(names, links, name), (a - 1) as nat, b);
        assert((a + b - 1) as nat == (a - 1) as nat + b);
    }
}

/// A chain that comes back to a name it has passed, without an end on the
/// way, never ends.
pub proof fn lemma_cycle_never_ends(
    names: Seq<Seq<char>>,
    links: Seq<Link>,
    name: Seq<char>,
    t: nat,
    k: nat,
)
    requires
        t < k,
        follow(names, links, name, t) == follow(names, links, name, k),
        forall|s: nat| s <= k ==> !is_root(names, links, #[trigger] follow(names, links, name, s)),
    ensures
        !chain_ends(names, links, name),
{
    let y = follow(names, links, name, t);
    let p = (k - t) as nat;
    lemma_follow_add(names, links, name, t, p);
    assert forall|m: nat| !is_root(names, links, #[trigger] follow(names, links, y, m)) by {
        lemma_cycle_from(names, links, name, t, k, m);
    }
    if chain_ends(names, links, name) {
        let n = choose|n: nat| is_root(names, links, #[trigger] follow(names, links, name, n));
        if n > t {
            lemma_follow_add(names, links, name, t, (n - t) as nat);
            assert(!is_root(names, links, follow(names, links, y, (n - t) as nat)));
        } else {
            assert(!is_root(names, links, follow(names, links, name, n)));
        }
    }
}

/// The cycle of `lemma_cycle_never_ends` holds no end, however far it is
/// followed.
proof fn lemma_cycle_from(
    names: Seq<Seq<char>>,
    links: Seq<Link>,
    name: Seq<char>,
    t: nat,
    k: nat,
    m: nat,
)
    requires
        t < k,
        follow(names, links, name, t) == follow(names, links, name, k),
        forall|s: nat| s <= k ==> !is_root(names, links, #[trigger] follow(names, links, name, s)),
    ensures
        !is_root(names, links, follow(names, links, follow(names, links, name, t), m)),
    decreases m,
{
    let y = follow(names, links, name, t);
    let p = (k - t) as nat;
    if m <= p {
        lemma_follow_add(names, links, name, t, m);
        assert(!is_root(names, links, follow(names, links, name, t + m)));
    } else {
        lemma_follow_add(names, links, name, t, p);
        lemma_follow_add(names, links, y, p, (m - p) as nat);
        lemma_cycle_from(names, links, name, t, k, (m - p) as nat);
    }
}

/// The number of entries of `v` that are `false`.
pub open spec fn count_false(v: Seq<bool>) -> nat
    decreases v.len(),
{
    if v.len() == 0 {
        0
    } else {
        count_false(v.drop_last()) + if v.last() {
            0nat
        } else {
            1nat
        }
    }
}

/// Setting a `false` entry to `true` leaves one `false` entry less.
proof fn lemma_count_false_set(v: Seq<bool>, i: int)
    requires
        0 <= i < v.len(),
        !v[i],
    ensures
        count_false(v.update(i, true)) + 1 == count_false(v),
    decreases v.len(),
{
    if i == v.len() - 1 {
        assert(v.update(i, true).drop_last() =~= v.drop_last());
    } else {
        assert(v.update(i, true).drop_last() =~= v.drop_last().update(i, true));
        lemma_count_false_set(v.drop_last(), i);
    }
}

/// The parameter that a resolving chain ends at is free and found under
/// the chain's end.
proof fn lemma_resolved_root(names: Seq<Seq<char>>, links: Seq<Link>, name: Seq<char>)
    requires
        resolves(names, links, name),
        names.len() == links.len(),
    ensures
        0 <= lookup(names, root_name(names, links, name))->0 < links.len(),
        is_free_link(links[lookup(names, root_name(names, links, name))->0]),
{
    let n = choose|n: nat| is_root(names, links, #[trigger] follow(names, links, name, n));
    lemma_root_name_unique(names, links, name, n);
    crate::gadget::lemma_lookup_some(names, root_name(names, links, name));
}

/// Changing a parameter without changing its link keeps the links.
proof fn lemma_update_keeps_links(ps: Seq<Parameter>, i: int, p: Parameter)
    requires
        0 <= i < ps.len(),
        p.link == ps[i].link,
    ensures
        links_of(ps.update(i, p)) == links_of(ps),
{
    assert(links_of(ps.update(i, p)) =~= links_of(ps));
}

/// Every entry of an all-`false` sequence is counted.
proof fn lemma_count_false_none_set(n: nat)
    ensures
        count_false(Seq::new(n, |j: int| false)) == n,
    decreases n,
{
    if n > 0 {
        assert(Seq::new(n, |j: int| false).drop_last() =~= Seq::new((n - 1) as nat, |j: int| false));
        lemma_count_false_none_set((n - 1) as nat);
    }
}

/// A chain that ends reaches its end within as many steps as there are
/// names.
pub proof fn lemma_chain_bound(names: Seq<Seq<char>>, links: Seq<Link>, name: Seq<char>)
    requires
        names.len() == links.len(),
        chain_ends(names, links, name),
    ensures
        is_root(names, links, follow(names, links, name, names.len())),
{
    let n = names.len();
    lemma_count_false_none_set(n);
    lemma_chain_bound_from(
        names,
        links,
        name,
        0,
        Seq::new(n, |j: int| false),
        Seq::new(n, |j: int| 0nat),
    );
}

/// The step of `lemma_chain_bound`: after `k` steps without an end, each
/// through a different parameter (`visited`, first passed at `first`),
/// the end comes within the steps left.
proof fn lemma_chain_bound_from(
    names: Seq<Seq<char>>,
    links: Seq<Link>,
    start: Seq<char>,
    k: nat,
    visited: Seq<bool>,
    first: Seq<nat>,
)
    requires
        names.len() == links.len(),
        chain_ends(names, links, start),
        visited.len() == names.len(),
        first.len() == names.len(),
        k + count_false(visited) == names.len(),
        forall|s: nat| s < k ==> !is_root(names, links, #[trigger] follow(names, links, start, s)),
        forall|j: int|
            0 <= j < names.len() && #[trigger] visited[j] ==> first[j] < k && names[j] == follow(
                names,
                links,
                start,
                first[j],
            ),
    ensures
        is_root(names, links, follow(names, links, start, names.len())),
    decreases count_false(visited),
{
    let cur = follow(names, links, start, k);
    if is_root(names, links, cur) {
        lemma_follow_stable(names, links, start, k, names.len());
    } else {
        crate::gadget::lemma_lookup_some(names, cur);
        let i = lookup(names, cur)->0;
        if visited[i] {
            let t = first[i];
            assert forall|s: nat| s <= k implies !is_root(
                names,
                links,
                #[trigger] follow(names, links, start, s),
            ) by {
                if s < k {
                } else {
                }
            }
            lemma_cycle_never_ends(names, links, start, t, k);
        } else {
            lemma_count_false_set(visited, i);
            lemma_chain_bound_from(
                names,
                links,
                start,
                k + 1,
                visited.update(i, true),
                first.update(i, k),
            );
        }
    }
}

/// An engine runs one gadget; `buffer` holds one sample per free parameter and
/// `output` is the slot that the output is read from.
pub struct Engine<G: Gadget> {
    pub gadget: G,
    pub buffer: Vec<u32>,
    pub output: Option<usize>,
}

impl<G: Gadget> Engine<G> {
    /// The names under which the gadget's parameters are found.
    pub open spec fn names(&self) -> Seq<Seq<char>> {
        self.gadget.full_names()
    }

    /// The links of the gadget's parameters.
    pub open spec fn links(&self) -> Seq<Link> {
        links_of(self.gadget.params())
    }

    /// An engine for `gadget`, with an empty buffer and no output.
    pub fn new(gadget: G) -> (e: Self)
        ensures
            e.gadget == gadget,
            e.buffer@ == Seq::<u32>::empty(),
            e.output is None,
    {
        Self { gadget: gadget, buffer: Vec::new(), output: None }
    }

    /// The end of the chain of links from `name`.
    fn root_parameter_name(&self, name: &str) -> (r: String)
        requires
            self.gadget.inv(),
            chain_ends(self.names(), self.links(), name@),
        ensures
            r@ == root_name(self.names(), self.links(), name@),
            is_root(self.names(), self.links(), r@),
    {
        let ghost names = self.names();
        let ghost links = self.links();
        let ghost n = choose|n: nat| is_root(names, links, #[trigger] follow(names, links, name@, n));
        proof {
            self.gadget.lemma_inv();
            lemma_root_name_unique(names, links, name@, n);
        }
        let mut cur: String = name.to_owned();
        let ghost mut k: nat = n;
        loop
            invariant
                self.gadget.inv(),
                names == self.names(),
                links == self.links(),
                names.len() == links.len(),
                is_root(names, links, follow(names, links, cur@, k)),
                follow(names, links, cur@, k) == root_name(names, links, name@),
            decreases k,
        {
            let found = self.gadget.parameter(cur.as_str());
            match found {
                Some(p) => {
                    let ghost i = lookup(names, cur@)->0;
                    assert(links[i] == p.link);
                    match &p.link {
                        Link::Link(l) => {
                            let next = l.clone();
                            proof {
                                assert(!is_root(names, links, cur@));
                                assert(next_name(names, links, cur@) == next@);
                                k = (k - 1) as nat;
                            }
                            cur = next;
                        },
                        Link::Value(_) => {
                            proof {
                                lemma_follow_root(names, links, cur@, k);
                            }
                            return cur;
                        },
                    }
                },
                None => {
                    proof {
                        lemma_follow_root(names, links, cur@, k);
                    }
                    return cur;
                },
            }
        }
    }

    /// Where the chain of links from `name` ends, or `None` when it goes
    /// round in a circle.
    fn chain_end(&self, names: &Vec<String>, name: String) -> (r: Option<String>)
        requires
            self.gadget.inv(),
            names_of(names@) == self.names(),
        ensures
            r is Some <==> chain_ends(self.names(), self.links(), name@),
            r matches Some(e) ==> e@ == root_name(self.names(), self.links(), name@),
    {
        let ghost vnames = self.names();
        let ghost links = self.links();
        proof {
            self.gadget.lemma_inv();
        }
        let n = names.len();
        let mut visited: Vec<bool> = vec![false; n];
        let ghost mut first: Seq<nat> = Seq::new(n as nat, |j: int| 0nat);
        let mut cur = name;
        let ghost start = cur@;
        let ghost mut k: nat = 0;
        assert(follow(vnames, links, start, 0) == start);
        loop
            invariant
                self.gadget.inv(),
                vnames == self.names(),
                links == self.links(),
                names_of(names@) == vnames,
                vnames.len() == links.len(),
                start == name@,
                n == names@.len(),
                visited@.len() == n,
                first.len() == n,
                cur@ == follow(vnames, links, start, k),
                forall|s: nat| s < k ==> !is_root(vnames, links, #[trigger] follow(vnames, links, start, s)),
                forall|j: int|
                    0 <= j < n && #[trigger] visited@[j] ==> first[j] < k && vnames[j] == follow(
                        vnames,
                        links,
                        start,
                        first[j],
                    ),
            decreases count_false(visited@),
        {
            match position(names, &cur) {
                None => {
                    proof {
                        lemma_root_name_unique(vnames, links, start, k);
                    }
                    return Some(cur);
                },
                Some(i) => {
                    let p = self.gadget.par(i);
                    proof {
                        crate::gadget::lemma_lookup_some(vnames, cur@);
                        assert(links[i as int] == p.link);
                    }
                    match &p.link {
                        Link::Value(_) => {
                            proof {
                                lemma_root_name_unique(vnames, links, start, k);
                            }
                            return Some(cur);
                        },
                        Link::Link(l) => {
                            proof {
                                assert(!is_root(vnames, links, cur@));
                            }
                            if visited[i] {
                                proof {
                                    let t = first[i as int];
                                    assert(!is_root(vnames, links, follow(vnames, links, start, k)));
                                    lemma_cycle_never_ends(vnames, links, start, t, k);
                                }
                                return None;
                            }
                            let next = l.clone();
                            proof {
                                lemma_count_false_set(visited@, i as int);
                                lemma_follow_add(vnames, links, start, k, 1);
                                assert(next_name(vnames, links, cur@) == next@);
                                assert(follow(vnames, links, next@, 0) == next@);
                                assert(follow(vnames, links, cur@, 1) == next@);
                            }
                            visited.set(i, true);
                            proof {
                                first = first.update(i as int, k);
                                k = k + 1;
                            }
                            cur = next;
                        },
                    }
                },
            }
        }
    }

    /// Whether binding can go through: every link leads, in finitely many
    /// steps, to a parameter that exists, and the chain from `OUT` ends.
    pub fn links_resolve(&self) -> (r: bool)
        requires
            self.gadget.inv(),
        ensures
            r == well_linked(self.names(), self.links()),
    {
        proof {
            self.gadget.lemma_inv();
            reveal(well_linked);
        }
        let names = self.gadget.parameter_names();
        let count = self.gadget.parameter_count();
        let ghost vnames = self.names();
        let ghost links = self.links();
        let mut i: usize = 0;
        while i < count
            invariant
                self.gadget.inv(),
                vnames == self.names(),
                links == self.links(),
                names_of(names@) == vnames,
                count == links.len(),
                i <= count,
                forall|j: int|
                    0 <= j < i && links[j] is Link ==> resolves(
                        vnames,
                        links,
                        link_target(#[trigger] links[j]),
                    ),
            decreases count - i,
        {
            let p = self.gadget.par(i);
            proof {
                reveal(well_linked);
                assert(links[i as int] == p.link);
            }
            if let Link::Link(t) = &p.link {
                match self.chain_end(&names, t.clone()) {
                    None => {
                        return false;
                    },
                    Some(e) => {
                        if position(&names, &e).is_none() {
                            return false;
                        }
                    },
                }
            }
            i = i + 1;
        }
        proof {
            reveal(well_linked);
        }
        let out = "OUT".to_owned();
        match self.chain_end(&names, out) {
            None => false,
            Some(_) => true,
        }
    }

    /// The slot of the parameter that the chain of links from `name` ends at.
    fn root_parameter_pointer(&self, name: &str) -> (r: Option<usize>)
        requires
            self.gadget.inv(),
            resolves(self.names(), self.links(), name@),
        ensures
            r == self.gadget.params()[lookup(
                self.names(),
                root_name(self.names(), self.links(), name@),
            )->0].slot,
    {
        let name = self.root_parameter_name(name);
        match self.gadget.parameter(name.as_str()) {
            Some(p) => p.slot,
            None => None,
        }
    }

    /// When parameter `i` is linked, give it the slot of the parameter that
    /// its chain of links ends at.
    fn bind_linked(&mut self, i: usize)
        requires
            old(self).gadget.inv(),
            i < old(self).gadget.params().len(),
            well_linked(old(self).names(), old(self).links()),
            forall|j: int|
                0 <= j < old(self).gadget.params().len() && is_free_link(old(self).links()[j])
                    ==> #[trigger] old(self).gadget.params()[j].slot == Some(
                    free_rank(old(self).links(), j) as usize,
                ),
        ensures
            final(self).gadget.inv(),
            final(self).names() == old(self).names(),
            final(self).links() == old(self).links(),
            final(self).gadget.instance_name() == old(self).gadget.instance_name(),
            final(self).buffer == old(self).buffer,
            final(self).output == old(self).output,
            final(self).gadget.params() == old(self).gadget.params().update(
                i as int,
                Parameter {
                    slot: if is_free_link(old(self).links()[i as int]) {
                        old(self).gadget.params()[i as int].slot
                    } else {
                        Some(bound_slot(old(self).names(), old(self).links(), i as int) as usize)
                    },
                    name: old(self).gadget.params()[i as int].name,
                    link: old(self).gadget.params()[i as int].link,
                },
            ),
    {
        let ghost names = self.names();
        let ghost links = self.links();
        let ghost ps = self.gadget.params();
        proof {
            self.gadget.lemma_inv();
        }
        let p = self.gadget.par(i);
        proof {
            assert(links[i as int] == p.link);
        }
        if let Link::Link(x) = &p.link {
            proof {
                reveal(well_linked);
                assert(resolves(names, links, link_target(links[i as int])));
                lemma_resolved_root(names, links, x@);
            }
            let slot = self.root_parameter_pointer(x.as_str());
            let q = self.gadget.par_mut(i);
            match slot {
                Some(k) => q.bind(k),
                None => q.unbind(),
            }
            proof {
                lemma_update_keeps_links(ps, i as int, *q);
            }
        } else {
            assert(ps.update(i as int, ps[i as int]) =~= ps);
        }
    }

    /// Give every linked parameter the slot of the parameter that its chain
    /// of links ends at; free parameters keep their slots.
    fn bind_links(&mut self)
        requires
            old(self).gadget.inv(),
            well_linked(old(self).names(), old(self).links()),
            forall|j: int|
                0 <= j < old(self).gadget.params().len() ==> (#[trigger] old(self).gadget.params()[j]).slot == if is_free_link(old(self).links()[j]) {
                    Some(free_rank(old(self).links(), j) as usize)
                } else {
                    None
                },
        ensures
            final(self).gadget.inv(),
            final(self).names() == old(self).names(),
            final(self).links() == old(self).links(),
            final(self).gadget.instance_name() == old(self).gadget.instance_name(),
            final(self).buffer == old(self).buffer,
            final(self).output == old(self).output,
            final(self).gadget.params().len() == old(self).gadget.params().len(),
            forall|j: int|
                0 <= j < old(self).gadget.params().len() ==> (#[trigger] final(self).gadget.params()[j]).name == old(self).gadget.params()[j].name,
            forall|j: int|
                0 <= j < old(self).gadget.params().len() ==> (#[trigger] final(self).gadget.params()[j]).slot == Some(
                    bound_slot(old(self).names(), old(self).links(), j) as usize,
                ),
    {
        let ghost names = self.names();
        let ghost links = self.links();
        let ghost params0 = self.gadget.params();
        proof {
            self.gadget.lemma_inv();
        }
        let count = self.gadget.parameter_count();
        let mut i: usize = 0;
        while i < count
            invariant
                self.gadget.inv(),
                names == self.names(),
                links == self.links(),
                well_linked(names, links),
                count == links.len(),
                count == names.len(),
                self.gadget.params().len() == count,
                self.gadget.instance_name() == old(self).gadget.instance_name(),
                self.buffer == old(self).buffer,
                self.output == old(self).output,
                i <= count,
                forall|j: int|
                    0 <= j < count ==> (#[trigger] self.gadget.params()[j]).name
                        == params0[j].name,
                forall|j: int|
                    0 <= j < count ==> (#[trigger] self.gadget.params()[j]).slot == if j < i {
                        Some(bound_slot(names, links, j) as usize)
                    } else if is_free_link(links[j]) {
                        Some(free_rank(links, j) as usize)
                    } else {
                        None
                    },
            decreases count - i,
        {
            self.bind_linked(i);
            i = i + 1;
        }
    }

    /// Give every parameter its slot in the buffer, which holds one slot
    /// per free parameter: the free parameters, in index order, get slots
    /// 0, 1, 2, ..., which are set to their values; a linked parameter gets
    /// the slot of the parameter its chain of links ends at.  Then read the
    /// output from the slot of the parameter that `OUT` leads to.
    pub fn bind(&mut self)
        requires
            old(self).gadget.inv(),
            well_linked(old(self).names(), old(self).links()),
        ensures
            final(self).gadget.inv(),
            final(self).names() == old(self).names(),
            final(self).links() == old(self).links(),
            final(self).gadget.instance_name() == old(self).gadget.instance_name(),
            final(self).gadget.params().len() == old(self).gadget.params().len(),
            forall|i: int|
                0 <= i < old(self).gadget.params().len() ==> (#[trigger] final(self).gadget.params()[i]).name == old(self).gadget.params()[i].name,
            forall|i: int|
                0 <= i < old(self).gadget.params().len() ==> (#[trigger] final(self).gadget.params()[i]).slot == Some(
                    bound_slot(old(self).names(), old(self).links(), i) as usize,
                ),
            final(self).buffer@ == free_values(old(self).links()),
            final(self).output == output_slot(old(self).names(), old(self).links()),
            match lookup(old(self).names(), root_name(old(self).names(), old(self).links(), "OUT"@)) {
                Some(r) => final(self).output == final(self).gadget.params()[r].slot,
                None => final(self).output is None,
            },
    {
        let ghost names = self.names();
        let ghost links = self.links();
        let ghost params0 = self.gadget.params();
        proof {
            self.gadget.lemma_inv();
            lemma_count_free_values(params0);
        }
        let count = self.gadget.parameter_count();
        let free = self.gadget.free_parameter_count();
        self.buffer.resize(free, BITS_ZERO);
        let mut k: usize = 0;
        let mut i: usize = 0;
        while i < count
            invariant
                self.gadget.inv(),
                names == self.names(),
                links == self.links(),
                count == links.len(),
                count == names.len(),
                free == free_values(links).len(),
                self.gadget.params().len() == count,
                self.gadget.instance_name() == old(self).gadget.instance_name(),
                self.buffer@.len() == free,
                i <= count,
                k == free_rank(links, i as int),
                k <= free,
                self.buffer@.subrange(0, k as int) == free_values(links.take(i as int)),
                forall|j: int|
                    0 <= j < count ==> (#[trigger] self.gadget.params()[j]).name
                        == params0[j].name,
                forall|j: int|
                    0 <= j < count ==> (#[trigger] self.gadget.params()[j]).slot == if j < i {
                        if is_free_link(links[j]) {
                            Some(free_rank(links, j) as usize)
                        } else {
                            None
                        }
                    } else {
                        params0[j].slot
                    },
            decreases count - i,
        {
            proof {
                lemma_free_values_step(links, i as int);
                lemma_free_values_prefix(links, i + 1);
            }
            let ghost ps = self.gadget.params();
            let ghost b = self.buffer@;
            let p = self.gadget.par_mut(i);
            p.unbind();
            proof {
                assert(links[i as int] == p.link);
            }
            if let Link::Value(x) = p.link {
                p.bind(k);
                p.write(&mut self.buffer, x);
                proof {
                    assert(self.buffer@.subrange(0, k + 1) =~= b.subrange(0, k as int).push(x));
                }
                k = k + 1;
            }
            proof {
                lemma_update_keeps_links(ps, i as int, *p);
            }
            i = i + 1;
        }
        proof {
            assert(links.take(count as int) =~= links);
            assert(self.buffer@ =~= self.buffer@.subrange(0, k as int));
        }
        assert(self.links() == links);
        self.bind_links();
        proof {
            reveal(well_linked);
        }
        let name = self.root_parameter_name("OUT");
        match self.gadget.parameter(name.as_str()) {
            Some(p) => {
                self.output = p.slot;
            },
            None => {
                self.output = None;
            },
        }
    }

    /// The current output sample: the value in the output slot, or 0 when
    /// there is no output.
    pub fn out(&self) -> (r: u32)
        requires
            self.output matches Some(k) ==> k < self.buffer.len(),
        ensures
            r == match self.output {
                Some(k) => self.buffer@[k as int],
                None => BITS_ZERO,
            },
    {
        match self.output {
            Some(k) => self.buffer[k],
            None => BITS_ZERO,
        }
    }
}

} // verus!
