//! The compiler: turns an accumulated builder into a validated
//! configuration, or the full list of everything wrong with it.
//!
//! Phases run in order: the cross-namespace uniqueness scan, macro
//! expansion, graph construction, cycle detection, input validation,
//! resource arbitration, acknowledgement propagation and test binding.
//! Each phase collects its errors and later phases still run where their
//! inputs are independent, so the error list is maximal.

use vstd::prelude::*;
use crate::builder::ConfigBuilder;
use crate::components::{SinkOuter, SourceOuter, TransformOuter};
use crate::config::Config;
use crate::graph::{Graph, Node, NodeKind};
use crate::id::{ComponentKey, OutputId};
use crate::omap::OMap;
use crate::resource::Resource;

verus! {

/// One key is declared in two different namespaces.
pub open spec fn cross_collision(b: ConfigBuilder, k: Seq<char>) -> bool {
    let ns = if b.sources.spec_contains(k) {
        1int
    } else {
        0int
    };
    let nt = if b.transforms.spec_contains(k) {
        1int
    } else {
        0int
    };
    let nk = if b.sinks.spec_contains(k) {
        1int
    } else {
        0int
    };
    let ne = if b.enrichment_tables.spec_contains(k) {
        1int
    } else {
        0int
    };
    ns + nt + nk + ne >= 2
}

/// Check that component names are unique across the source, transform,
/// sink and enrichment-table namespaces. One message per name declared
/// more than once, naming the kinds that claim it, reported at the first
/// namespace holding the name; empty exactly when no name is declared
/// twice.
#[verifier::loop_isolation(false)]
#[verifier::rlimit(60)]
fn uniqueness_errors(b: &ConfigBuilder, errors: &mut Vec<String>) -> (added: bool)
    requires
        b.wf(),
    ensures
        final(errors)@.len() >= old(errors)@.len(),
        added == (final(errors)@.len() > old(errors)@.len()),
        !added ==> final(errors)@ == old(errors)@,
        !added <==> forall|k: Seq<char>| !cross_collision(*b, k),
{
    let ghost e0 = errors@;
    let mut added = false;
    let n0 = b.sources.len();
    let mut i0: usize = 0;
    while i0 < n0
        invariant
            0 <= i0 <= n0,
            b.wf(),
            n0 == b.sources.spec_len(),
            errors@.len() >= e0.len(),
            added == (errors@.len() > e0.len()),
            !added ==> errors@ == e0,
            added ==> exists|k: Seq<char>| cross_collision(*b, k),
            !added ==> forall|j: int|
                0 <= j < i0 ==> !cross_collision(*b, #[trigger] b.sources.entries()[j].0),
        decreases n0 - i0,
    {
        let key = b.sources.key_at(i0);
        proof {
            crate::omap::lemma_find_characterizes(b.sources.entries(), key@, 0);
        }
        if check_one_name(b, key, 0, errors) {
            added = true;
        }
        i0 += 1;
    }
    let n1 = b.transforms.len();
    let mut i1: usize = 0;
    while i1 < n1
        invariant
            0 <= i1 <= n1,
            b.wf(),
            n1 == b.transforms.spec_len(),
            errors@.len() >= e0.len(),
            added == (errors@.len() > e0.len()),
            !added ==> errors@ == e0,
            added ==> exists|k: Seq<char>| cross_collision(*b, k),
            !added ==> forall|j: int|
                0 <= j < b.sources.entries().len() ==> !cross_collision(
                    *b,
                    #[trigger] b.sources.entries()[j].0,
                ),
            !added ==> forall|j: int|
                0 <= j < i1 ==> !cross_collision(*b, #[trigger] b.transforms.entries()[j].0),
        decreases n1 - i1,
    {
        let key = b.transforms.key_at(i1);
        proof {
            crate::omap::lemma_find_characterizes(b.transforms.entries(), key@, 0);
        }
        if check_one_name(b, key, 1, errors) {
            added = true;
        } else {
            proof {
                if !added && b.sources.spec_contains(key@) {
                    crate::omap::lemma_find_characterizes(b.sources.entries(), key@, 0);
                    let j = choose|j: int|
                        0 <= j < b.sources.entries().len() && b.sources.entries()[j].0 == key@;
                    assert(!cross_collision(*b, b.sources.entries()[j].0));
                }
            }
        }
        i1 += 1;
    }
    let n2 = b.sinks.len();
    let mut i2: usize = 0;
    while i2 < n2
        invariant
            0 <= i2 <= n2,
            b.wf(),
            n2 == b.sinks.spec_len(),
            errors@.len() >= e0.len(),
            added == (errors@.len() > e0.len()),
            !added ==> errors@ == e0,
            added ==> exists|k: Seq<char>| cross_collision(*b, k),
            !added ==> forall|j: int|
                0 <= j < b.sources.entries().len() ==> !cross_collision(
                    *b,
                    #[trigger] b.sources.entries()[j].0,
                ),
            !added ==> forall|j: int|
                0 <= j < b.transforms.entries().len() ==> !cross_collision(
                    *b,
                    #[trigger] b.transforms.entries()[j].0,
                ),
            !added ==> forall|j: int|
                0 <= j < i2 ==> !cross_collision(*b, #[trigger] b.sinks.entries()[j].0),
        decreases n2 - i2,
    {
        let key = b.sinks.key_at(i2);
        proof {
            crate::omap::lemma_find_characterizes(b.sinks.entries(), key@, 0);
        }
        if check_one_name(b, key, 2, errors) {
            added = true;
        } else {
            proof {
                if !added && b.sources.spec_contains(key@) {
                    crate::omap::lemma_find_characterizes(b.sources.entries(), key@, 0);
                    let j = choose|j: int|
                        0 <= j < b.sources.entries().len() && b.sources.entries()[j].0 == key@;
                    assert(!cross_collision(*b, b.sources.entries()[j].0));
                }
                if !added && b.transforms.spec_contains(key@) {
                    crate::omap::lemma_find_characterizes(b.transforms.entries(), key@, 0);
                    let j = choose|j: int|
                        0 <= j < b.transforms.entries().len() && b.transforms.entries()[j].0
                            == key@;
                    assert(!cross_collision(*b, b.transforms.entries()[j].0));
                }
            }
        }
        i2 += 1;
    }
    proof {
        if !added {
            assert forall|k: Seq<char>| !cross_collision(*b, k) by {
                if cross_collision(*b, k) {
                    // Two namespaces hold `k`; one of the first three does.
                    if b.sources.spec_contains(k) {
                        crate::omap::lemma_find_characterizes(b.sources.entries(), k, 0);
                        let j = choose|j: int|
                            0 <= j < b.sources.entries().len() && b.sources.entries()[j].0 == k;
                        assert(!cross_collision(*b, b.sources.entries()[j].0));
                    } else if b.transforms.spec_contains(k) {
                        crate::omap::lemma_find_characterizes(b.transforms.entries(), k, 0);
                        let j = choose|j: int|
                            0 <= j < b.transforms.entries().len() && b.transforms.entries()[j].0
                                == k;
                        assert(!cross_collision(*b, b.transforms.entries()[j].0));
                    } else {
                        assert(b.sinks.spec_contains(k) && b.enrichment_tables.spec_contains(k));
                        crate::omap::lemma_find_characterizes(b.sinks.entries(), k, 0);
                        let j = choose|j: int|
                            0 <= j < b.sinks.entries().len() && b.sinks.entries()[j].0 == k;
                        assert(!cross_collision(*b, b.sinks.entries()[j].0));
                    }
                }
            }
        }
    }
    added
}

/// Report the name if more than one namespace claims it and `pass` is
/// its first namespace.
fn check_one_name(b: &ConfigBuilder, key: &String, pass: usize, errors: &mut Vec<String>) -> (added:
    bool)
    requires
        b.wf(),
        pass == 0 ==> b.sources.spec_contains(key@),
        pass == 1 ==> b.transforms.spec_contains(key@),
        pass == 2 ==> b.sinks.spec_contains(key@),
        pass <= 2,
    ensures
        final(errors)@.len() >= old(errors)@.len(),
        added == (final(errors)@.len() > old(errors)@.len()),
        !added ==> final(errors)@ == old(errors)@,
        added ==> cross_collision(*b, key@),
        !added ==> !cross_collision(*b, key@) || (pass == 1 && b.sources.spec_contains(key@)) || (
        pass == 2 && (b.sources.spec_contains(key@) || b.transforms.spec_contains(key@))),
{
    let in_sources = b.sources.contains_key(key);
    let in_transforms = b.transforms.contains_key(key);
    let in_sinks = b.sinks.contains_key(key);
    let in_tables = b.enrichment_tables.contains_key(key);
    let mut count: usize = 0;
    if in_sources {
        count += 1;
    }
    if in_transforms {
        count += 1;
    }
    if in_sinks {
        count += 1;
    }
    if in_tables {
        count += 1;
    }
    let first_here = match pass {
        0 => true,
        1 => !in_sources,
        _ => !in_sources && !in_transforms,
    };
    if count >= 2 && first_here {
        let mut msg = "More than one component with name \"".to_owned();
        msg.append(key.as_str());
        msg.append("\" (");
        let mut sep = false;
        if in_sources {
            msg.append("source");
            sep = true;
        }
        if in_transforms {
            if sep {
                msg.append(", ");
            }
            msg.append("transform");
            sep = true;
        }
        if in_sinks {
            if sep {
                msg.append(", ");
            }
            msg.append("sink");
            sep = true;
        }
        if in_tables {
            if sep {
                msg.append(", ");
            }
            msg.append("enrichment table");
        }
        msg.append(").");
        errors.push(msg);
        true
    } else {
        false
    }
}

/// No transform of the namespace is a macro.
pub open spec fn macro_free_entries(trs: Seq<(Seq<char>, TransformOuter)>) -> bool {
    forall|m: int| 0 <= m < trs.len() ==> (#[trigger] trs[m]).1.inner.expansion is None
}

/// `nodes` is the graph of the given namespaces: sources, then
/// transforms, then sinks, in order, each node carrying its component's
/// key, kind, stream types and input references.
pub open spec fn is_graph_of(
    srcs: Seq<(Seq<char>, SourceOuter)>,
    trs: Seq<(Seq<char>, TransformOuter)>,
    snks: Seq<(Seq<char>, SinkOuter)>,
    nodes: Seq<Node>,
) -> bool {
    &&& nodes.len() == srcs.len() + trs.len() + snks.len()
    &&& forall|i: int|
        0 <= i < srcs.len() ==> {
            let nd = #[trigger] nodes[i];
            nd.kind == NodeKind::Source && nd.key@ == srcs[i].0 && outputs_match(
                nd.outputs@,
                srcs[i].1.inner.outputs@,
            ) && nd.inputs@.len() == 0
        }
    &&& forall|i: int|
        0 <= i < trs.len() ==> {
            let nd = #[trigger] nodes[srcs.len() + i];
            nd.kind == NodeKind::Transform && nd.key@ == trs[i].0 && nd.input_type
                == trs[i].1.inner.input_type && outputs_match(
                nd.outputs@,
                trs[i].1.inner.outputs@,
            ) && inputs_match(nd.inputs@, trs[i].1.inputs@)
        }
    &&& forall|i: int|
        0 <= i < snks.len() ==> {
            let nd = #[trigger] nodes[srcs.len() + trs.len() + i];
            nd.kind == NodeKind::Sink && nd.key@ == snks[i].0 && nd.input_type
                == snks[i].1.inner.input_type && nd.outputs@.len() == 0 && inputs_match(
                nd.inputs@,
                snks[i].1.inputs@,
            )
        }
}

/// The two output lists declare the same streams.
pub open spec fn outputs_match(
    a: Seq<crate::components::Output>,
    b: Seq<crate::components::Output>,
) -> bool {
    a.len() == b.len() && forall|t: int|
        0 <= t < a.len() ==> crate::graph::out_port_view(#[trigger] a[t])
            == crate::graph::out_port_view(b[t]) && a[t].ty == b[t].ty
}

/// The two input lists reference the same streams.
pub open spec fn inputs_match(a: Seq<OutputId>, b: Seq<OutputId>) -> bool {
    a.len() == b.len() && forall|t: int|
        0 <= t < a.len() ==> (#[trigger] a[t]).component@ == b[t].component@ && a[t].port_view()
            == b[t].port_view()
}

/// `pairs` lists every component's declared resources: sources, then
/// sinks, then enrichment tables, in order.
pub open spec fn is_resource_pairs_of(
    srcs: Seq<(Seq<char>, SourceOuter)>,
    snks: Seq<(Seq<char>, SinkOuter)>,
    tabs: Seq<(Seq<char>, crate::components::EnrichmentTableOuter)>,
    pairs: Seq<(ComponentKey, Vec<Resource>)>,
) -> bool {
    &&& pairs.len() == srcs.len() + snks.len() + tabs.len()
    &&& forall|i: int|
        0 <= i < srcs.len() ==> (#[trigger] pairs[i]).0@ == srcs[i].0 && resources_match(
            pairs[i].1@,
            srcs[i].1.inner.resources@,
        )
    &&& forall|i: int|
        0 <= i < snks.len() ==> (#[trigger] pairs[srcs.len() + i]).0@ == snks[i].0
            && resources_match(pairs[srcs.len() + i].1@, snks[i].1.inner.resources@)
    &&& forall|i: int|
        0 <= i < tabs.len() ==> (#[trigger] pairs[srcs.len() + snks.len() + i]).0@ == tabs[i].0
            && resources_match(pairs[srcs.len() + snks.len() + i].1@, tabs[i].1.resources@)
}

/// The two resource lists claim the same resources.
pub open spec fn resources_match(a: Seq<Resource>, b: Seq<Resource>) -> bool {
    a.len() == b.len() && forall|t: int| 0 <= t < a.len() ==> (#[trigger] a[t])@ == b[t]@
}

/// Expand every macro transform into its sub-topology.
///
/// Each inner transform is inserted under `logical.inner`; the logical
/// transform is removed, its inputs go to the first inner transform, and
/// references to the logical name are rewritten to the last one. An
/// expansion containing a transform that is itself a macro is an error.
#[verifier::loop_isolation(false)]
fn expand_macros(
    transforms: &mut OMap<TransformOuter>,
    sinks: &mut OMap<SinkOuter>,
    expansions: &mut OMap<Vec<ComponentKey>>,
    errors: &mut Vec<String>,
)
    requires
        old(transforms).wf(),
        old(sinks).wf(),
        old(expansions).wf(),
    ensures
        final(transforms).wf(),
        final(sinks).wf(),
        final(expansions).wf(),
        final(errors)@.len() >= old(errors)@.len(),
        macro_free_entries(old(transforms).entries()) && old(expansions).entries().len() == 0
            ==> *final(transforms) == *old(transforms)
            && *final(sinks) == *old(sinks) && *final(expansions) == *old(expansions)
            && final(errors)@ == old(errors)@,
        final(errors)@ == old(errors)@ ==> crate::config::exp_map_wf(
            final(expansions).entries(),
        ),
{
    let mut work = true;
    let mut budget = transforms.len();
    while work && budget > 0
        invariant
            transforms.wf(),
            sinks.wf(),
            expansions.wf(),
            errors@.len() >= old(errors)@.len(),
            macro_free_entries(old(transforms).entries()) && old(expansions).entries().len()
                == 0 ==> *transforms == *old(transforms)
                && *sinks == *old(sinks) && *expansions == *old(expansions)
                && errors@ == old(errors)@,
        decreases budget,
    {
        work = false;
        // Find the first transform that is a macro.
        let n = transforms.len();
        let mut found: Option<usize> = None;
        let mut i: usize = 0;
        while i < n
            invariant
                0 <= i <= n,
                transforms.wf(),
                n == transforms.spec_len(),
                match found {
                    Some(f) => f < n && transforms.entries()[f as int].1.inner.expansion is Some,
                    None => true,
                },
                macro_free_entries(transforms.entries()) ==> found is None,
            decreases n - i,
        {
            if found.is_none() && transforms.val_at(i).inner.expansion.is_some() {
                found = Some(i);
            }
            i += 1;
        }
        match found {
            Some(f) => {
                let logical = transforms.key_at(f).clone();
                let removed = transforms.remove(&logical);
                match removed {
                    Some(outer) => {
                        let TransformOuter { inner, inputs } = outer;
                        match inner.expansion {
                            Some(topo) => {
                                let mut phys: Vec<ComponentKey> = Vec::new();
                                let count = topo.inner.len();
                                let mut nested = false;
                                let mut c: usize = 0;
                                let mut items = topo.inner;
                                // Insert the inner transforms in order.
                                while c < count && items.len() > 0
                                    invariant
                                        transforms.wf(),
                                    decreases count - c,
                                {
                                    let (name, it) = items.remove(0);
                                    if it.expandable {
                                        nested = true;
                                    }
                                    let pk = ComponentKey::join(
                                        logical.as_str(),
                                        name.as_str(),
                                    );
                                    let pk_id = pk.id().to_owned();
                                    let use_inputs = if c == 0 {
                                        clone_inputs(&inputs)
                                    } else {
                                        it.inputs
                                    };
                                    let new_outer = TransformOuter {
                                        inner: crate::components::TransformInner {
                                            kind_name: name,
                                            input_type: it.input_type,
                                            outputs: it.outputs,
                                            expansion: None,
                                        },
                                        inputs: use_inputs,
                                    };
                                    if !transforms.contains_key(&pk_id) {
                                        phys.push(pk);
                                        transforms.push(pk_id, new_outer);
                                    }
                                    c += 1;
                                }
                                if nested {
                                    let mut msg =
                                        "Nested expanding transforms are not supported: ".to_owned();
                                    msg.append(logical.as_str());
                                    errors.push(msg);
                                } else if phys.len() > 0 {
                                    // Rewrite references to the logical
                                    // name to the expansion's exit.
                                    let exit = phys[phys.len() - 1].clone();
                                    rewrite_inputs(transforms, &logical, &exit);
                                    rewrite_sink_inputs(sinks, &logical, &exit);
                                    if !expansions.contains_key(&logical) {
                                        expansions.push(logical, phys);
                                    }
                                    work = true;
                                }
                            },
                            None => {},
                        }
                    },
                    None => {},
                }
            },
            None => {},
        }
        budget -= 1;
    }
    // A physical name that is itself a logical key would break the
    // round-trip property; reject such configurations outright.
    let ghost e_check = errors@;
    let ne = expansions.len();
    let mut m: usize = 0;
    while m < ne
        invariant
            0 <= m <= ne,
            expansions.wf(),
            transforms.wf(),
            sinks.wf(),
            ne == expansions.spec_len(),
            errors@.len() >= e_check.len(),
            forall|i: int| 0 <= i < e_check.len() ==> errors@[i] == e_check[i],
            errors@ == e_check ==> forall|m2: int, p2: int|
                0 <= m2 < m && 0 <= p2 < expansions.entries()[m2].1@.len()
                    ==> crate::omap::find_in(
                    expansions.entries(),
                    (#[trigger] expansions.entries()[m2].1@[p2])@,
                ) is None,
            macro_free_entries(old(transforms).entries()) && old(expansions).entries().len()
                == 0 ==> *transforms == *old(transforms)
                && *sinks == *old(sinks) && *expansions == *old(expansions)
                && errors@ == old(errors)@,
        decreases ne - m,
    {
        let list_len = expansions.val_at(m).len();
        let mut p: usize = 0;
        while p < list_len
            invariant
                0 <= p <= list_len,
                0 <= m < ne,
                expansions.wf(),
                ne == expansions.spec_len(),
                list_len == expansions.entries()[m as int].1@.len(),
                errors@.len() >= e_check.len(),
                forall|i: int| 0 <= i < e_check.len() ==> errors@[i] == e_check[i],
                errors@ == e_check ==> forall|m2: int, p2: int|
                    0 <= m2 < m && 0 <= p2 < expansions.entries()[m2].1@.len()
                        ==> crate::omap::find_in(
                        expansions.entries(),
                        (#[trigger] expansions.entries()[m2].1@[p2])@,
                    ) is None,
                errors@ == e_check ==> forall|p2: int|
                    0 <= p2 < p ==> crate::omap::find_in(
                        expansions.entries(),
                        (#[trigger] expansions.entries()[m as int].1@[p2])@,
                    ) is None,
                macro_free_entries(old(transforms).entries()) && old(
                    expansions,
                ).entries().len() == 0 ==> *transforms == *old(transforms) && *sinks == *old(
                    sinks,
                ) && *expansions == *old(expansions) && errors@ == old(errors)@,
            decreases list_len - p,
        {
            let pk_id = expansions.val_at(m)[p].id().to_owned();
            proof {
                assert(pk_id@ == expansions.entries()[m as int].1@[p as int]@);
            }
            if expansions.contains_key(&pk_id) {
                let mut msg = "Expansion produced a name that is itself expandable: ".to_owned();
                msg.append(pk_id.as_str());
                errors.push(msg);
            } else {
                proof {
                    assert(crate::omap::find_in(
                        expansions.entries(),
                        expansions.entries()[m as int].1@[p as int]@,
                    ) is None);
                }
            }
            p += 1;
        }
        m += 1;
    }
    proof {
        if errors@ == old(errors)@ {
            assert(errors@.len() == old(errors)@.len());
            assert(e_check.len() == errors@.len());
            assert(errors@ =~= e_check);
            assert forall|m2: int, p2: int|
                0 <= m2 < expansions.entries().len() && 0 <= p2 < expansions.entries()[
                m2].1@.len() implies crate::omap::find_in(
                expansions.entries(),
                (#[trigger] expansions.entries()[m2].1@[p2])@,
            ) is None by {}
        }
    }
}

fn clone_inputs(inputs: &Vec<OutputId>) -> (r: Vec<OutputId>)
    ensures
        inputs_match(r@, inputs@),
{
    let mut r: Vec<OutputId> = Vec::new();
    let n = inputs.len();
    let mut i: usize = 0;
    while i < n
        invariant
            0 <= i <= n,
            n == inputs@.len(),
            r@.len() == i,
            forall|t: int|
                0 <= t < i ==> (#[trigger] r@[t]).component@ == inputs@[t].component@
                    && r@[t].port_view() == inputs@[t].port_view(),
        decreases n - i,
    {
        r.push(inputs[i].clone());
        i += 1;
    }
    r
}

/// Replace every transform input referencing `logical` by `exit`.
#[verifier::loop_isolation(false)]
fn rewrite_inputs(transforms: &mut OMap<TransformOuter>, logical: &String, exit: &ComponentKey)
    requires
        old(transforms).wf(),
    ensures
        final(transforms).wf(),
{
    let n = transforms.len();
    let mut i: usize = 0;
    while i < n
        invariant
            transforms.wf(),
            n == transforms.spec_len(),
            0 <= i <= n,
        decreases n - i,
    {
        let m = transforms.val_at(i).inputs.len();
        let mut t: usize = 0;
        while t < m
            invariant
                transforms.wf(),
                n == transforms.spec_len(),
                0 <= i < n,
                0 <= t <= m,
                m == transforms.entries()[i as int].1.inputs@.len(),
            decreases m - t,
        {
            if crate::graph::str_eq(
                transforms.val_at(i).inputs[t].component.id(),
                logical.as_str(),
            ) {
                let dummy = TransformOuter {
                    inner: crate::components::TransformInner {
                        kind_name: String::new(),
                        input_type: crate::components::DataTypeSet::all(),
                        outputs: Vec::new(),
                        expansion: None,
                    },
                    inputs: Vec::new(),
                };
                let mut outer = transforms.swap_at(i, dummy);
                let port = match &outer.inputs[t].port {
                    None => None,
                    Some(p) => Some(p.clone()),
                };
                let mut new_input = OutputId { component: exit.clone(), port };
                core::mem::swap(&mut outer.inputs[t], &mut new_input);
                let m2 = outer.inputs.len();
                let _ = transforms.swap_at(i, outer);
                proof {
                    assert(transforms.entries()[i as int].1.inputs@.len() == m2);
                }
                if m2 != m {
                    break ;
                }
            }
            t += 1;
        }
        i += 1;
    }
}

/// Replace every sink input referencing `logical` by `exit`.
#[verifier::loop_isolation(false)]
fn rewrite_sink_inputs(sinks: &mut OMap<SinkOuter>, logical: &String, exit: &ComponentKey)
    requires
        old(sinks).wf(),
    ensures
        final(sinks).wf(),
{
    let n = sinks.len();
    let mut i: usize = 0;
    while i < n
        invariant
            sinks.wf(),
            n == sinks.spec_len(),
            0 <= i <= n,
        decreases n - i,
    {
        let m = sinks.val_at(i).inputs.len();
        let mut t: usize = 0;
        while t < m
            invariant
                sinks.wf(),
                n == sinks.spec_len(),
                0 <= i < n,
                0 <= t <= m,
                m == sinks.entries()[i as int].1.inputs@.len(),
            decreases m - t,
        {
            if crate::graph::str_eq(sinks.val_at(i).inputs[t].component.id(), logical.as_str()) {
                let dummy = SinkOuter::new(
                    crate::components::SinkInner {
                        kind_name: String::new(),
                        input_type: crate::components::DataTypeSet::all(),
                        resources: Vec::new(),
                    },
                    Vec::new(),
                );
                let mut outer = sinks.swap_at(i, dummy);
                let port = match &outer.inputs[t].port {
                    None => None,
                    Some(p) => Some(p.clone()),
                };
                let mut new_input = OutputId { component: exit.clone(), port };
                core::mem::swap(&mut outer.inputs[t], &mut new_input);
                let m2 = outer.inputs.len();
                let _ = sinks.swap_at(i, outer);
                proof {
                    assert(sinks.entries()[i as int].1.inputs@.len() == m2);
                }
                if m2 != m {
                    break ;
                }
            }
            t += 1;
        }
        i += 1;
    }
}

/// Build the component graph from the expanded namespaces: sources, then
/// transforms, then sinks, in declaration order.
#[verifier::loop_isolation(false)]
fn build_graph(
    sources: &OMap<SourceOuter>,
    transforms: &OMap<TransformOuter>,
    sinks: &OMap<SinkOuter>,
) -> (g: Graph)
    requires
        sources.wf(),
        transforms.wf(),
        sinks.wf(),
    ensures
        is_graph_of(sources.entries(), transforms.entries(), sinks.entries(), g.nodes@),
{
    let mut nodes: Vec<Node> = Vec::new();
    let ns = sources.len();
    let mut i: usize = 0;
    while i < ns
        invariant
            0 <= i <= ns,
            sources.wf(),
            ns == sources.spec_len(),
            nodes@.len() == i,
            forall|q: int|
                0 <= q < i ==> {
                    let nd = #[trigger] nodes@[q];
                    nd.kind == NodeKind::Source && nd.key@ == sources.entries()[q].0
                        && outputs_match(nd.outputs@, sources.entries()[q].1.inner.outputs@)
                        && nd.inputs@.len() == 0
                },
        decreases ns - i,
    {
        let key = ComponentKey::new(sources.key_at(i).clone());
        let src = sources.val_at(i);
        nodes.push(
            Node {
                key,
                kind: NodeKind::Source,
                outputs: clone_outputs(&src.inner.outputs),
                input_type: crate::components::DataTypeSet::all(),
                inputs: Vec::new(),
            },
        );
        i += 1;
    }
    let nt = transforms.len();
    let mut j: usize = 0;
    while j < nt
        invariant
            0 <= j <= nt,
            sources.wf(),
            transforms.wf(),
            ns == sources.spec_len(),
            nt == transforms.spec_len(),
            nodes@.len() == ns + j,
            forall|q: int|
                0 <= q < ns ==> {
                    let nd = #[trigger] nodes@[q];
                    nd.kind == NodeKind::Source && nd.key@ == sources.entries()[q].0
                        && outputs_match(nd.outputs@, sources.entries()[q].1.inner.outputs@)
                        && nd.inputs@.len() == 0
                },
            forall|q: int|
                0 <= q < j ==> {
                    let nd = #[trigger] nodes@[ns + q];
                    nd.kind == NodeKind::Transform && nd.key@ == transforms.entries()[q].0
                        && nd.input_type == transforms.entries()[q].1.inner.input_type
                        && outputs_match(nd.outputs@, transforms.entries()[q].1.inner.outputs@)
                        && inputs_match(nd.inputs@, transforms.entries()[q].1.inputs@)
                },
        decreases nt - j,
    {
        let key = ComponentKey::new(transforms.key_at(j).clone());
        let tr = transforms.val_at(j);
        nodes.push(
            Node {
                key,
                kind: NodeKind::Transform,
                outputs: clone_outputs(&tr.inner.outputs),
                input_type: tr.inner.input_type,
                inputs: clone_inputs(&tr.inputs),
            },
        );
        j += 1;
    }
    let nk = sinks.len();
    let mut q: usize = 0;
    while q < nk
        invariant
            0 <= q <= nk,
            sources.wf(),
            transforms.wf(),
            sinks.wf(),
            ns == sources.spec_len(),
            nt == transforms.spec_len(),
            nk == sinks.spec_len(),
            nodes@.len() == ns + nt + q,
            forall|q2: int|
                0 <= q2 < ns ==> {
                    let nd = #[trigger] nodes@[q2];
                    nd.kind == NodeKind::Source && nd.key@ == sources.entries()[q2].0
                        && outputs_match(nd.outputs@, sources.entries()[q2].1.inner.outputs@)
                        && nd.inputs@.len() == 0
                },
            forall|q2: int|
                0 <= q2 < nt ==> {
                    let nd = #[trigger] nodes@[ns + q2];
                    nd.kind == NodeKind::Transform && nd.key@ == transforms.entries()[q2].0
                        && nd.input_type == transforms.entries()[q2].1.inner.input_type
                        && outputs_match(nd.outputs@, transforms.entries()[q2].1.inner.outputs@)
                        && inputs_match(nd.inputs@, transforms.entries()[q2].1.inputs@)
                },
            forall|q2: int|
                0 <= q2 < q ==> {
                    let nd = #[trigger] nodes@[ns + nt + q2];
                    nd.kind == NodeKind::Sink && nd.key@ == sinks.entries()[q2].0 && nd.input_type
                        == sinks.entries()[q2].1.inner.input_type && nd.outputs@.len() == 0
                        && inputs_match(nd.inputs@, sinks.entries()[q2].1.inputs@)
                },
        decreases nk - q,
    {
        let key = ComponentKey::new(sinks.key_at(q).clone());
        let sk = sinks.val_at(q);
        nodes.push(
            Node {
                key,
                kind: NodeKind::Sink,
                outputs: Vec::new(),
                input_type: sk.inner.input_type,
                inputs: clone_inputs(&sk.inputs),
            },
        );
        q += 1;
    }
    Graph { nodes }
}

fn clone_outputs(outputs: &Vec<crate::components::Output>) -> (r: Vec<crate::components::Output>)
    ensures
        outputs_match(r@, outputs@),
{
    let mut r: Vec<crate::components::Output> = Vec::new();
    let n = outputs.len();
    let mut i: usize = 0;
    while i < n
        invariant
            0 <= i <= n,
            n == outputs@.len(),
            r@.len() == i,
            forall|t: int|
                0 <= t < i ==> crate::graph::out_port_view(#[trigger] r@[t])
                    == crate::graph::out_port_view(outputs@[t]) && r@[t].ty == outputs@[t].ty,
        decreases n - i,
    {
        let o = &outputs[i];
        let port = match &o.port {
            None => None,
            Some(p) => Some(p.clone()),
        };
        r.push(crate::components::Output { port, ty: o.ty });
        i += 1;
    }
    r
}

/// Collect every component's declared resources: sources, then sinks,
/// then enrichment tables, in declaration order.
#[verifier::loop_isolation(false)]
fn collect_resources(
    sources: &OMap<SourceOuter>,
    sinks: &OMap<SinkOuter>,
    tables: &OMap<crate::components::EnrichmentTableOuter>,
) -> (out: Vec<(ComponentKey, Vec<Resource>)>)
    requires
        sources.wf(),
        sinks.wf(),
        tables.wf(),
    ensures
        is_resource_pairs_of(sources.entries(), sinks.entries(), tables.entries(), out@),
{
    let mut out: Vec<(ComponentKey, Vec<Resource>)> = Vec::new();
    let ns = sources.len();
    let mut i: usize = 0;
    while i < ns
        invariant
            0 <= i <= ns,
            ns == sources.spec_len(),
            out@.len() == i,
            forall|q2: int|
                0 <= q2 < i ==> (#[trigger] out@[q2]).0@ == sources.entries()[q2].0
                    && resources_match(out@[q2].1@, sources.entries()[q2].1.inner.resources@),
        decreases ns - i,
    {
        out.push(
            (
                ComponentKey::new(sources.key_at(i).clone()),
                clone_resources(&sources.val_at(i).inner.resources),
            ),
        );
        i += 1;
    }
    let nk = sinks.len();
    let mut q: usize = 0;
    while q < nk
        invariant
            0 <= q <= nk,
            nk == sinks.spec_len(),
            out@.len() == ns + q,
            forall|q2: int|
                0 <= q2 < ns ==> (#[trigger] out@[q2]).0@ == sources.entries()[q2].0
                    && resources_match(out@[q2].1@, sources.entries()[q2].1.inner.resources@),
            forall|q2: int|
                0 <= q2 < q ==> (#[trigger] out@[ns + q2]).0@ == sinks.entries()[q2].0
                    && resources_match(out@[ns + q2].1@, sinks.entries()[q2].1.inner.resources@),
        decreases nk - q,
    {
        out.push(
            (
                ComponentKey::new(sinks.key_at(q).clone()),
                clone_resources(&sinks.val_at(q).inner.resources),
            ),
        );
        q += 1;
    }
    let ne = tables.len();
    let mut e: usize = 0;
    while e < ne
        invariant
            0 <= e <= ne,
            ne == tables.spec_len(),
            out@.len() == ns + nk + e,
            forall|q2: int|
                0 <= q2 < ns ==> (#[trigger] out@[q2]).0@ == sources.entries()[q2].0
                    && resources_match(out@[q2].1@, sources.entries()[q2].1.inner.resources@),
            forall|q2: int|
                0 <= q2 < nk ==> (#[trigger] out@[ns + q2]).0@ == sinks.entries()[q2].0
                    && resources_match(out@[ns + q2].1@, sinks.entries()[q2].1.inner.resources@),
            forall|q2: int|
                0 <= q2 < e ==> (#[trigger] out@[ns + nk + q2]).0@ == tables.entries()[q2].0
                    && resources_match(out@[ns + nk + q2].1@, tables.entries()[q2].1.resources@),
        decreases ne - e,
    {
        out.push(
            (
                ComponentKey::new(tables.key_at(e).clone()),
                clone_resources(&tables.val_at(e).resources),
            ),
        );
        e += 1;
    }
    out
}

fn clone_resources(resources: &Vec<Resource>) -> (r: Vec<Resource>)
    ensures
        r@.len() == resources@.len(),
        forall|i: int| 0 <= i < resources@.len() ==> r@[i]@ == resources@[i]@,
{
    let mut r: Vec<Resource> = Vec::new();
    let n = resources.len();
    let mut i: usize = 0;
    while i < n
        invariant
            0 <= i <= n,
            n == resources@.len(),
            r@.len() == i,
            forall|j: int| 0 <= j < i ==> r@[j]@ == resources@[j]@,
        decreases n - i,
    {
        r.push(resources[i].clone());
        i += 1;
    }
    r
}

/// Every graph-level check passes: the graph is acyclic, every
/// consumer's inputs are well-shaped, and every edge is type-compatible.
pub open spec fn graph_checks_ok(nodes: Seq<Node>) -> bool {
    &&& crate::graph::acyclic(nodes)
    &&& forall|j: int| 0 <= j < nodes.len() ==> crate::graph::consumer_ok(nodes, j)
    &&& forall|j: int, t: int|
        0 <= j < nodes.len() && crate::graph::is_consumer(nodes[j]) && 0 <= t < nodes[
            j
        ].inputs@.len() ==> crate::graph::edge_types_ok(nodes, j, #[trigger] nodes[j].inputs@[t])
}

/// No resource has two distinct claimants, wildcard semantics included.
pub open spec fn pairs_conflict_free(pairs: Seq<(ComponentKey, Vec<Resource>)>) -> bool {
    forall|r: crate::resource::ResourceView, k1: Seq<char>, k2: Seq<char>|
        #![trigger crate::arbiter::claims(pairs, k1, r), crate::arbiter::claims(pairs, k2, r)]
        !(crate::arbiter::has_direct_claimant(pairs, r) && k1 != k2 && crate::arbiter::claims(
            pairs,
            k1,
            r,
        ) && crate::arbiter::claims(pairs, k2, r))
}

/// Every test either resolves fully or has no resolvable extract target
/// at all (and is then dropped without error).
pub open spec fn tests_bindable(
    nodes: Seq<Node>,
    tests: Seq<crate::testdef::TestDefinition<String>>,
) -> bool {
    forall|j: int|
        0 <= j < tests.len() ==> {
            let td = #[trigger] tests[j];
            crate::testdef::surviving_outputs(nodes, Seq::empty(), td.outputs@).len() == 0 || (
            crate::testdef::extract_miss_msgs(nodes, Seq::empty(), td.name@, td.outputs@)
                + crate::testdef::no_outputs_miss_msgs(
                nodes,
                td.name@,
                crate::testdef::str_views(td.no_outputs_from@),
            )).len() == 0
        }
}

/// Every graph matching the builder's namespaces passes the graph-level
/// checks and can bind the builder's tests.
pub open spec fn builder_graph_ok(b: ConfigBuilder) -> bool {
    forall|nodes: Seq<Node>|
        is_graph_of(b.sources.entries(), b.transforms.entries(), b.sinks.entries(), nodes)
            ==> #[trigger] graph_checks_ok(nodes) && tests_bindable(nodes, b.tests@)
}

/// Every resource collection matching the builder's namespaces is free of
/// conflicts.
pub open spec fn builder_pairs_ok(b: ConfigBuilder) -> bool {
    forall|pairs: Seq<(ComponentKey, Vec<Resource>)>|
        is_resource_pairs_of(
            b.sources.entries(),
            b.sinks.entries(),
            b.enrichment_tables.entries(),
            pairs,
        ) ==> #[trigger] pairs_conflict_free(pairs)
}

/// Compile a builder into a validated configuration.
///
/// On success the returned configuration is well-formed with a round-trip
/// stable expansion map; its component names are unique across
/// namespaces; its graph is acyclic, input-valid and type-compatible; no
/// resource is claimed twice; and every source's acknowledgement flag is
/// raised exactly when the source supports acknowledgements and reaches
/// an acknowledging sink. A builder without macro transforms whose graph,
/// resources and tests all check out compiles successfully. On failure
/// the collected errors of every phase come back together.
#[verifier::loop_isolation(false)]
#[verifier::rlimit(100)]
pub fn compile(builder: ConfigBuilder) -> (r: Result<(Config, Vec<String>), Vec<String>>)
    requires
        builder.wf(),
    ensures
        r matches Err(es) ==> es@.len() > 0,
        r matches Ok(ok) ==> ({
            let c = ok.0;
            &&& c.wf()
            &&& crate::config::expansions_wf(c)
            &&& forall|k: Seq<char>| !cross_collision(builder, k)
            &&& exists|nodes: Seq<Node>|
                is_graph_of(c.sources.entries(), c.transforms.entries(), c.sinks.entries(), nodes)
                    && #[trigger] graph_checks_ok(nodes)
            &&& exists|pairs: Seq<(ComponentKey, Vec<Resource>)>|
                is_resource_pairs_of(
                    c.sources.entries(),
                    c.sinks.entries(),
                    c.enrichment_tables.entries(),
                    pairs,
                ) && #[trigger] pairs_conflict_free(pairs)
            &&& c.global == builder.global
            &&& c.healthchecks == builder.healthchecks
            &&& c.sources.entries().len() == builder.sources.entries().len()
            &&& forall|i: int|
                0 <= i < builder.sources.entries().len() ==> {
                    let oldent = builder.sources.entries()[i];
                    let newent = #[trigger] c.sources.entries()[i];
                    newent.0 == oldent.0 && newent.1.inner == oldent.1.inner && newent.1.proxy
                        == oldent.1.proxy && newent.1.sink_acknowledgements == (
                    oldent.1.sink_acknowledgements || (oldent.1.inner.can_acknowledge
                        && crate::config::ack_demanded(c, oldent.0)))
                }
        }),
        (macro_free_entries(builder.transforms.entries()) && (forall|k: Seq<char>|
            !cross_collision(builder, k)) && builder_graph_ok(builder) && builder_pairs_ok(
            builder,
        )) ==> r is Ok,
{
    let ghost b0 = builder;
    let ghost hyp = macro_free_entries(b0.transforms.entries()) && (forall|k: Seq<char>|
        !cross_collision(b0, k)) && builder_graph_ok(b0) && builder_pairs_ok(b0);
    let mut errors: Vec<String> = Vec::new();
    let mut warnings: Vec<String> = Vec::new();
    // Phase: cross-namespace uniqueness.
    let _ = uniqueness_errors(&builder, &mut errors);
    proof {
        assert(errors@.len() == 0 ==> forall|k: Seq<char>| !cross_collision(b0, k));
        assert(hyp ==> errors@.len() == 0);
    }
    let ConfigBuilder {
        global,
        healthchecks,
        sources,
        mut transforms,
        mut sinks,
        enrichment_tables,
        secret,
        tests,
        enterprise: _,
    } = builder;
    // Phase: macro expansion.
    let ghost e_pre_exp = errors@;
    let mut expansions: OMap<Vec<ComponentKey>> = OMap::new();
    expand_macros(&mut transforms, &mut sinks, &mut expansions, &mut errors);
    let ghost e_post_exp = errors@;
    proof {
        assert(hyp ==> transforms == b0.transforms && sinks == b0.sinks && errors@ == e_pre_exp
            && expansions.entries() =~= Seq::<(Seq<char>, Vec<ComponentKey>)>::empty());
    }
    // Phase: graph construction and validation.
    let graph = build_graph(&sources, &transforms, &sinks);
    proof {
        if hyp {
            assert(is_graph_of(
                b0.sources.entries(),
                b0.transforms.entries(),
                b0.sinks.entries(),
                graph.nodes@,
            ));
            assert(builder_graph_ok(b0));
            assert(graph_checks_ok(graph.nodes@) && tests_bindable(graph.nodes@, b0.tests@));
        }
    }
    let ghost len_cycle = errors@.len();
    match graph.check_for_cycles() {
        Some(chain) => {
            let mut msg = "Cyclic dependency detected in the chain [ ".to_owned();
            let n = chain.len();
            let mut i: usize = 0;
            while i < n
                invariant
                    0 <= i <= n,
                    n == chain@.len(),
                decreases n - i,
            {
                if i > 0 {
                    msg.append(" -> ");
                }
                msg.append(chain[i].id());
                i += 1;
            }
            msg.append(" ]");
            errors.push(msg);
        },
        None => {},
    }
    proof {
        assert(errors@.len() == len_cycle <==> crate::graph::acyclic(graph.nodes@));
    }
    let ghost len_inputs = errors@.len();
    let mut input_errors = graph.check_inputs();
    errors.append(&mut input_errors);
    let _ = graph.type_mismatch_errors(&mut errors);
    let ghost len_types = errors@.len();
    let mut reach_warnings = graph.node_warnings();
    warnings.append(&mut reach_warnings);
    // Phase: resource arbitration.
    let resources = collect_resources(&sources, &sinks, &enrichment_tables);
    let conflicts = Resource::conflicts(&resources);
    proof {
        assert(conflicts@.len() == 0 ==> pairs_conflict_free(resources@)) by {
            if conflicts@.len() == 0 {
                assert forall|r: crate::resource::ResourceView, k1: Seq<char>, k2: Seq<char>|
                    #![trigger crate::arbiter::claims(resources@, k1, r), crate::arbiter::claims(resources@, k2, r)]
                    !(crate::arbiter::has_direct_claimant(resources@, r) && k1 != k2
                        && crate::arbiter::claims(resources@, k1, r) && crate::arbiter::claims(
                        resources@,
                        k2,
                        r,
                    )) by {}
            }
        }
        assert(pairs_conflict_free(resources@) ==> conflicts@.len() == 0) by {
            if pairs_conflict_free(resources@) && conflicts@.len() > 0 {
                let ks = conflicts@[0].1@;
                assert(crate::arbiter::in_keys(ks, ks[0]@));
                assert(crate::arbiter::in_keys(ks, ks[1]@));
                assert(ks[0]@ != ks[1]@);
                assert(crate::arbiter::claims(resources@, ks[0]@, conflicts@[0].0@));
                assert(crate::arbiter::claims(resources@, ks[1]@, conflicts@[0].0@));
                assert(false);
            }
        }
        if hyp {
            assert(is_resource_pairs_of(
                b0.sources.entries(),
                b0.sinks.entries(),
                b0.enrichment_tables.entries(),
                resources@,
            ));
            assert(builder_pairs_ok(b0));
            assert(pairs_conflict_free(resources@));
            assert(conflicts@.len() == 0);
        }
    }
    let ghost len_res = errors@.len();
    let nc = conflicts.len();
    let mut ci: usize = 0;
    while ci < nc
        invariant
            0 <= ci <= nc,
            nc == conflicts@.len(),
            errors@.len() == len_res + ci,
        decreases nc - ci,
    {
        let (res, claimants) = &conflicts[ci];
        let mut msg = "Resource `".to_owned();
        msg.append(res.text().as_str());
        msg.append("` is claimed by multiple components: ");
        let ncl = claimants.len();
        let mut cj: usize = 0;
        while cj < ncl
            invariant
                0 <= cj <= ncl,
                0 <= ci < nc,
                nc == conflicts@.len(),
                ncl == conflicts@[ci as int].1@.len(),
            decreases ncl - cj,
        {
            if cj > 0 {
                msg.append(", ");
            }
            msg.append(claimants[cj].id());
            cj += 1;
        }
        errors.push(msg);
        ci += 1;
    }
    // Assemble, propagate acknowledgements, bind tests.
    let mut config = Config {
        global,
        healthchecks,
        sources,
        transforms,
        sinks,
        enrichment_tables,
        secret,
        tests: Vec::new(),
        expansions,
    };
    let ghost cfg_prop = config;
    let mut ack_warnings = config.propagate_acknowledgements();
    warnings.append(&mut ack_warnings);
    let ghost cfg_bound = config;
    let ghost tests0 = tests@;
    let ghost len_tests = errors@.len();
    let mut remaining = tests;
    while remaining.len() > 0
        invariant
            config.wf(),
            config.global == cfg_bound.global,
            config.healthchecks == cfg_bound.healthchecks,
            config.sources == cfg_bound.sources,
            config.transforms == cfg_bound.transforms,
            config.sinks == cfg_bound.sinks,
            config.enrichment_tables == cfg_bound.enrichment_tables,
            config.secret == cfg_bound.secret,
            config.expansions == cfg_bound.expansions,
            errors@.len() >= len_tests,
            remaining@.len() <= tests0.len(),
            forall|j: int|
                0 <= j < remaining@.len() ==> #[trigger] remaining@[j] == tests0[j + (tests0.len()
                    - remaining@.len())],
            hyp ==> errors@.len() == len_tests,
        decreases remaining.len(),
    {
        let ghost idx = tests0.len() - remaining@.len();
        let td = remaining.remove(0);
        proof {
            assert(td == tests0[idx]);
            if hyp {
                assert(config.expansions.entries() =~= Seq::<(
                    Seq<char>,
                    Vec<ComponentKey>,
                )>::empty());
            }
        }
        let ghost e_before_td = errors@;
        match td.resolve_outputs(&graph, &config.expansions, &mut errors) {
            Some(resolved) => {
                config.tests.push(resolved);
            },
            None => {},
        }
        proof {
            if hyp {
                assert(crate::testdef::surviving_outputs(
                    graph.nodes@,
                    Seq::empty(),
                    tests0[idx].outputs@,
                ).len() == 0 || (crate::testdef::extract_miss_msgs(
                    graph.nodes@,
                    Seq::empty(),
                    tests0[idx].name@,
                    tests0[idx].outputs@,
                ) + crate::testdef::no_outputs_miss_msgs(
                    graph.nodes@,
                    tests0[idx].name@,
                    crate::testdef::str_views(tests0[idx].no_outputs_from@),
                )).len() == 0);
                assert(errors@ == e_before_td);
            }
        }
    }
    if errors.len() == 0 {
        proof {
            // Every phase added nothing, so each phase's success facts
            // hold of the assembled configuration.
            assert(e_pre_exp.len() == 0 && e_post_exp.len() == 0);
            assert(e_post_exp =~= e_pre_exp);
            assert(crate::config::exp_map_wf(cfg_prop.expansions.entries()));
            assert(config.expansions == cfg_prop.expansions);
            assert(crate::graph::acyclic(graph.nodes@));
            assert(forall|j: int|
                0 <= j < graph.nodes@.len() ==> crate::graph::consumer_ok(graph.nodes@, j));
            assert(graph_checks_ok(graph.nodes@));
            assert(pairs_conflict_free(resources@));
            assert(is_graph_of(
                config.sources.entries(),
                config.transforms.entries(),
                config.sinks.entries(),
                graph.nodes@,
            ));
            assert(is_resource_pairs_of(
                config.sources.entries(),
                config.sinks.entries(),
                config.enrichment_tables.entries(),
                resources@,
            ));
            assert forall|i: int|
                0 <= i < b0.sources.entries().len() implies {
                let oldent = b0.sources.entries()[i];
                let newent = #[trigger] config.sources.entries()[i];
                newent.0 == oldent.0 && newent.1.inner == oldent.1.inner && newent.1.proxy
                    == oldent.1.proxy && newent.1.sink_acknowledgements == (
                oldent.1.sink_acknowledgements || (oldent.1.inner.can_acknowledge
                    && crate::config::ack_demanded(config, oldent.0)))
            } by {
                crate::config::lemma_ack_demanded_same(cfg_prop, config, b0.sources.entries()[i].0);
            }
        }
        Ok((config, warnings))
    } else {
        proof {
            assert(!hyp);
        }
        Err(errors)
    }
}

} // verus!} // verus!
