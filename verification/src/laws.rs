//! Properties of the library that span its functions.
use vstd::prelude::*;
use crate::engine::{
    bound_slot, chain_end_index, chain_ends, follow, free_rank, free_values, is_root,
    lemma_chain_bound, lemma_count_free_values, lemma_free_rank, lemma_free_rank_monotone,
    lemma_free_values_step, lemma_root_name_unique, link_value, next_name, resolves, root_name,
    well_linked,
};
use crate::gadget::{
    count_free, is_first_index, is_free_link, link_target, links_of, lookup, prefixed_name, Gadget,
    Link,
    Parameter,
};
use crate::gadget::lemma_first_index_unique;
use crate::container::{
    concat_names, concat_params, lemma_concat_lengths, lemma_concat_prefix, lemma_concat_take_step,
    AnyGadget,
};
use crate::editor::{widget_link, widget_selection, RowInput};
use crate::engine::{output_slot, OutputGadget};
use crate::oscillators::{DampedOscillatorGadget, PowerOscillatorGadget};
use crate::transformations::{AbsGadget, AmplitudePhaseGadget, DoubleAbsGadget};

verus! {

/// The end of a chain of links is an end: no parameter is found under it,
/// or the one found carries its own value.
pub proof fn law_root_is_root(names: Seq<Seq<char>>, links: Seq<Link>, name: Seq<char>)
    requires
        chain_ends(names, links, name),
    ensures
        is_root(names, links, root_name(names, links, name)),
        root_name(names, links, root_name(names, links, name)) == root_name(names, links, name),
{
    let n = choose|n: nat| is_root(names, links, #[trigger] follow(names, links, name, n));
    lemma_root_name_unique(names, links, name, n);
    let r = root_name(names, links, name);
    assert(follow(names, links, r, 0) == r);
    lemma_root_name_unique(names, links, r, 0);
}

/// After binding, every parameter has a slot inside the buffer, so every
/// parameter can be read and written.
pub proof fn law_bind_slots_in_buffer(names: Seq<Seq<char>>, links: Seq<Link>, i: int)
    requires
        names.len() == links.len(),
        well_linked(names, links),
        0 <= i < links.len(),
    ensures
        0 <= chain_end_index(names, links, i) < links.len(),
        is_free_link(links[chain_end_index(names, links, i)]),
        0 <= bound_slot(names, links, i) < free_values(links).len(),
{
    reveal(well_linked);
    if !is_free_link(links[i]) {
        let t = link_target(links[i]);
        assert(resolves(names, links, t));
        law_root_is_root(names, links, t);
        crate::gadget::lemma_lookup_some(names, root_name(names, links, t));
    }
    lemma_free_rank(links, chain_end_index(names, links, i));
}

/// After binding, a linked parameter shares the slot of the parameter
/// that its chain of links ends at, and that parameter is free: both read
/// the same value, and a write through either is seen by the other.
pub proof fn law_bind_link_shares_slot(names: Seq<Seq<char>>, links: Seq<Link>, i: int)
    requires
        names.len() == links.len(),
        well_linked(names, links),
        0 <= i < links.len(),
        links[i] is Link,
    ensures
        is_free_link(links[chain_end_index(names, links, i)]),
        bound_slot(names, links, chain_end_index(names, links, i)) == bound_slot(names, links, i),
        names[chain_end_index(names, links, i)] == root_name(names, links, link_target(links[i])),
{
    reveal(well_linked);
    let t = link_target(links[i]);
    assert(resolves(names, links, t));
    law_root_is_root(names, links, t);
    crate::gadget::lemma_lookup_some(names, root_name(names, links, t));
}

/// After binding, every parameter reads the value of the free parameter
/// that it leads to: a free parameter its own value, a linked one the
/// value of the end of its chain.
pub proof fn law_bind_reads_root_value(names: Seq<Seq<char>>, links: Seq<Link>, i: int)
    requires
        names.len() == links.len(),
        well_linked(names, links),
        0 <= i < links.len(),
    ensures
        free_values(links)[bound_slot(names, links, i)] == link_value(
            links[chain_end_index(names, links, i)],
        ),
        is_free_link(links[i]) ==> free_values(links)[bound_slot(names, links, i)] == link_value(
            links[i],
        ),
{
    law_bind_slots_in_buffer(names, links, i);
    lemma_free_rank(links, chain_end_index(names, links, i));
}

/// Distinct free parameters get distinct slots, in index order.
pub proof fn law_free_slots_distinct(links: Seq<Link>, i: int, j: int)
    requires
        0 <= i < j < links.len(),
        is_free_link(links[i]),
    ensures
        free_rank(links, i) < free_rank(links, j),
{
    lemma_free_values_step(links, i);
    lemma_free_rank_monotone(links, i + 1, j);
}

/// The buffer that binding makes has one slot per free parameter.
pub proof fn law_bind_buffer_length(ps: Seq<Parameter>)
    ensures
        free_values(links_of(ps)).len() == count_free(ps),
{
    lemma_count_free_values(ps);
}

/// The end of a chain of links is found by following the link of the
/// parameter found under a name, until no parameter is found or the one
/// found is free.
pub proof fn law_root_name_step(names: Seq<Seq<char>>, links: Seq<Link>, name: Seq<char>)
    requires
        chain_ends(names, links, name),
    ensures
        is_root(names, links, name) ==> root_name(names, links, name) == name,
        !is_root(names, links, name) ==> chain_ends(names, links, next_name(names, links, name))
            && root_name(names, links, name) == root_name(
            names,
            links,
            next_name(names, links, name),
        ),
{
    let n = choose|n: nat| is_root(names, links, #[trigger] follow(names, links, name, n));
    lemma_root_name_unique(names, links, name, n);
    if is_root(names, links, name) {
        lemma_root_name_unique(names, links, name, 0);
    } else {
        assert(n > 0);
        let next = next_name(names, links, name);
        assert(follow(names, links, name, n) == follow(names, links, next, (n - 1) as nat));
        lemma_root_name_unique(names, links, next, (n - 1) as nat);
    }
}

/// A chain of links that ends does so within as many steps as there are
/// parameters.
pub proof fn law_chain_ends_within(names: Seq<Seq<char>>, links: Seq<Link>, name: Seq<char>)
    requires
        names.len() == links.len(),
    ensures
        chain_ends(names, links, name) <==> is_root(
            names,
            links,
            follow(names, links, name, names.len()),
        ),
{
    if is_root(names, links, follow(names, links, name, names.len())) {
        lemma_root_name_unique(names, links, name, names.len());
    }
    if chain_ends(names, links, name) {
        lemma_chain_bound(names, links, name);
    }
}

/// What is written through a bound parameter is read back through any
/// parameter bound to the same slot.
pub proof fn law_read_after_write(p: Parameter, q: Parameter, buffer: Seq<u32>, value: u32)
    requires
        p.slot is Some,
        q.slot == p.slot,
        p.slot->0 < buffer.len(),
    ensures
        buffer.update(p.slot->0 as int, value)[q.slot->0 as int] == value,
{
}

/// When no name occurs twice, the parameter found under the `i`-th name is
/// the `i`-th parameter.
pub proof fn law_lookup_distinct(names: Seq<Seq<char>>, i: int)
    requires
        0 <= i < names.len(),
        forall|a: int, b: int| 0 <= a < b < names.len() ==> names[a] != names[b],
    ensures
        lookup(names, names[i]) == Some(i),
{
    assert(is_first_index(names, names[i], i));
    lemma_first_index_unique(names, names[i], i);
}

/// There are never more free parameters than parameters.
pub proof fn law_free_count_bounded(ps: Seq<Parameter>)
    ensures
        count_free(ps) <= ps.len(),
    decreases ps.len(),
{
    if ps.len() > 0 {
        law_free_count_bounded(ps.drop_last());
    }
}

/// Parameter `k` of gadget `j` of a container is parameter
/// `off + k` of the container, where `off` counts the parameters of the
/// gadgets before `j`.
pub proof fn law_container_index(gs: Seq<AnyGadget>, j: int, k: int)
    requires
        0 <= j < gs.len(),
        0 <= k < gs[j].params().len(),
    ensures
        concat_params(gs)[concat_params(gs.take(j)).len() + k] == gs[j].params()[k],
        concat_params(gs.take(j)).len() + gs[j].params().len() <= concat_params(gs).len(),
{
    let f = |g: AnyGadget| g.params();
    lemma_concat_take_step(gs, f, j);
    lemma_concat_prefix(gs, f, j + 1);
    let whole = concat_params(gs);
    let upto = concat_params(gs.take(j + 1));
    let i = concat_params(gs.take(j)).len() + k;
    assert(whole.subrange(0, upto.len() as int)[i] == whole[i]);
}

/// The output follows `OUT`: after binding, the output slot is the slot
/// of the parameter found under `OUT` (whose chain the output follows),
/// and there is no output when no parameter is found under `OUT`.
pub proof fn law_output_follows_out(names: Seq<Seq<char>>, links: Seq<Link>)
    requires
        names.len() == links.len(),
        well_linked(names, links),
    ensures
        match lookup(names, "OUT"@) {
            Some(o) => output_slot(names, links) == Some(bound_slot(names, links, o) as usize),
            None => output_slot(names, links) is None,
        },
{
    reveal(well_linked);
    law_root_name_step(names, links, "OUT"@);
    match lookup(names, "OUT"@) {
        Some(o) => {
            crate::gadget::lemma_lookup_some(names, "OUT"@);
            if is_free_link(links[o]) {
            } else {
                assert(next_name(names, links, "OUT"@) == link_target(links[o]));
            }
        },
        None => {},
    }
}

/// A gadget held as `AnyGadget` has exactly its own parameters, names and
/// instance name.
pub proof fn law_any_gadget_keeps_gadget(
    o: OutputGadget,
    d: DampedOscillatorGadget,
    p: PowerOscillatorGadget,
    a: AbsGadget,
    da: DoubleAbsGadget,
    ap: AmplitudePhaseGadget,
)
    ensures
        AnyGadget::Output(o).params() == o.params(),
        AnyGadget::Output(o).full_names() == o.full_names(),
        AnyGadget::Output(o).instance_name() == o.instance_name(),
        AnyGadget::DampedOscillator(d).params() == d.params(),
        AnyGadget::DampedOscillator(d).full_names() == d.full_names(),
        AnyGadget::DampedOscillator(d).instance_name() == d.instance_name(),
        AnyGadget::PowerOscillator(p).params() == p.params(),
        AnyGadget::PowerOscillator(p).full_names() == p.full_names(),
        AnyGadget::PowerOscillator(p).instance_name() == p.instance_name(),
        AnyGadget::Abs(a).params() == a.params(),
        AnyGadget::Abs(a).full_names() == a.full_names(),
        AnyGadget::Abs(a).instance_name() == a.instance_name(),
        AnyGadget::DoubleAbs(da).params() == da.params(),
        AnyGadget::DoubleAbs(da).full_names() == da.full_names(),
        AnyGadget::DoubleAbs(da).instance_name() == da.instance_name(),
        AnyGadget::AmplitudePhase(ap).params() == ap.params(),
        AnyGadget::AmplitudePhase(ap).full_names() == ap.full_names(),
        AnyGadget::AmplitudePhase(ap).instance_name() == ap.instance_name(),
{
}

/// Every gadget a container can hold names its `k`-th parameter by its
/// instance name, a colon, a space and that parameter's own name; the
/// output gadget's one parameter is found under `OUT`.  The parameter
/// counts are those of the kinds: 1, 6, 8, 2, 3 and 4.
pub proof fn law_any_gadget_names(g: AnyGadget)
    ensures
        g.inv(),
        g.full_names().len() == g.params().len(),
        g is Output ==> g.full_names() == seq!["OUT"@] && g.params().len() == 1,
        !(g is Output) ==> forall|k: int|
            0 <= k < g.params().len() ==> #[trigger] g.full_names()[k] == prefixed_name(
                g.instance_name(),
                g.params()[k].name@,
            ),
        g is DampedOscillator ==> g.params().len() == 6,
        g is PowerOscillator ==> g.params().len() == 8,
        g is Abs ==> g.params().len() == 2,
        g is DoubleAbs ==> g.params().len() == 3,
        g is AmplitudePhase ==> g.params().len() == 4,
{
    match g {
        AnyGadget::Output(x) => x.lemma_layout(),
        AnyGadget::DampedOscillator(x) => x.lemma_layout(),
        AnyGadget::PowerOscillator(x) => x.lemma_layout(),
        AnyGadget::Abs(x) => x.lemma_layout(),
        AnyGadget::DoubleAbs(x) => x.lemma_layout(),
        AnyGadget::AmplitudePhase(x) => x.lemma_layout(),
    }
}

/// Adding a gadget to a container appends its parameters and names.
pub proof fn law_container_push(gs: Seq<AnyGadget>, g: AnyGadget)
    ensures
        concat_params(gs.push(g)) == concat_params(gs) + g.params(),
        concat_names(gs.push(g)) == concat_names(gs) + g.full_names(),
{
    assert(gs.push(g).drop_last() =~= gs);
}

/// Name `k` of gadget `j` of a container is the container's name at the
/// same position as its parameter `k`: the parameter found under a name
/// is the gadget's parameter that carries it.
pub proof fn law_container_names(gs: Seq<AnyGadget>, j: int, k: int)
    requires
        0 <= j < gs.len(),
        0 <= k < gs[j].params().len(),
    ensures
        concat_names(gs)[concat_params(gs.take(j)).len() + k] == gs[j].full_names()[k],
        concat_params(gs)[concat_params(gs.take(j)).len() + k] == gs[j].params()[k],
{
    assert forall|i: int| 0 <= i < gs.len() implies (#[trigger] gs[i]).inv() by {
        law_any_gadget_names(gs[i]);
    }
    assert forall|i: int| 0 <= i < gs.take(j + 1).len() implies (#[trigger] gs.take(j + 1)[i]).inv() by {
        law_any_gadget_names(gs.take(j + 1)[i]);
    }
    assert forall|i: int| 0 <= i < gs.take(j).len() implies (#[trigger] gs.take(j)[i]).inv() by {
        law_any_gadget_names(gs.take(j)[i]);
    }
    law_any_gadget_names(gs[j]);
    lemma_concat_lengths(gs.take(j));
    law_container_index(gs, j, k);
    let f = |g: AnyGadget| g.full_names();
    lemma_concat_take_step(gs, f, j);
    lemma_concat_prefix(gs, f, j + 1);
    let whole = concat_names(gs);
    let upto = concat_names(gs.take(j + 1));
    let i = concat_params(gs.take(j)).len() + k;
    assert(upto[i] == gs[j].full_names()[k]);
    assert(whole.subrange(0, upto.len() as int)[i] == whole[i]);
}

/// Select on the row of a free parameter selects the row's name, whatever
/// was selected before, nothing included.
pub proof fn law_select_selects(
    l: Link,
    row_name: Seq<char>,
    selection: Option<Seq<char>>,
    input: RowInput,
)
    requires
        is_free_link(l),
        input.select,
    ensures
        widget_selection(l, row_name, selection, input) == Some(row_name),
{
}

/// Without Select on a free parameter, the selection stays.
pub proof fn law_selection_kept(
    l: Link,
    row_name: Seq<char>,
    selection: Option<Seq<char>>,
    input: RowInput,
)
    requires
        !(is_free_link(l) && input.select),
    ensures
        widget_selection(l, row_name, selection, input) == selection,
{
}

/// The value field of a free parameter sets its value, whatever the value
/// (0 included); a free parameter without a value field keeps its link.
pub proof fn law_value_field_sets(l: Link, input: RowInput)
    requires
        is_free_link(l),
    ensures
        match input.value {
            Some(v) => widget_link(l, input) == Link::Value(v),
            None => widget_link(l, input) == l,
        },
{
}

/// Unlink frees a linked parameter with value 0; without it a linked
/// parameter keeps its link.
pub proof fn law_unlink_frees(l: Link, input: RowInput)
    requires
        l is Link,
    ensures
        input.unlink ==> widget_link(l, input) == Link::Value(0),
        !input.unlink ==> widget_link(l, input) == l,
{
}

} // verus!
