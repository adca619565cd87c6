//! The dispatch loop's verified core: projecting selected rows into a
//! selection context, resolving the accepted trigger key in the registry,
//! gating the binding by resource type, and running it.
//!
//! The unverified shell performs the listing call and the picker round trip;
//! it hands the listing text, the selected rows and the accepted key in, and
//! carries the returned effect out.

use vstd::prelude::*;

use crate::bindings::{
    ActionEffect, Binding, BindingContext, BindingContextView, EffectView, spec_runs_for,
};
use crate::kubectl::KubectlOutput;
use crate::registry::{AnyBinding, BindingRegistry, spec_column_binding_count, spec_find};
use crate::text::{join, spec_dec, spec_join, spec_lines, spec_split_ws, split_lines,
    split_whitespace};

verus! {

/// The identifier of a row: its first whitespace-delimited token, or the
/// empty string when the row holds none.
pub open spec fn spec_row_name(row: Seq<char>) -> Seq<char> {
    if spec_split_ws(row).len() > 0 {
        spec_split_ws(row)[0]
    } else {
        Seq::empty()
    }
}

/// The selection context that a set of picked rows yields: one identifier
/// and one column vector per row, in selection order.
pub open spec fn spec_context_of(
    namespace: Option<Seq<char>>,
    resource: Seq<char>,
    rows: Seq<Seq<char>>,
) -> BindingContextView {
    BindingContextView {
        namespace: namespace,
        resource: resource,
        names: rows.map_values(|r: Seq<char>| spec_row_name(r)),
        columns: rows.map_values(|r: Seq<char>| spec_split_ws(r)),
    }
}

/// Round trip between a selection and its context: the context built from
/// `N` rows has exactly `N` identifiers and `N` column vectors, and wherever
/// a row has at least one token, its identifier is that first token.
pub proof fn lemma_context_round_trip(
    namespace: Option<Seq<char>>,
    resource: Seq<char>,
    rows: Seq<Seq<char>>,
)
    ensures
        spec_context_of(namespace, resource, rows).names.len() == rows.len(),
        spec_context_of(namespace, resource, rows).columns.len() == rows.len(),
        forall|i: int|
            0 <= i < rows.len() && (#[trigger] spec_context_of(
                namespace,
                resource,
                rows,
            ).columns[i]).len() > 0 ==> spec_context_of(namespace, resource, rows).columns[i][0]
                == spec_context_of(namespace, resource, rows).names[i],
{
    let ctx = spec_context_of(namespace, resource, rows);
    assert forall|i: int| 0 <= i < rows.len() && (#[trigger] ctx.columns[i]).len() > 0 implies ctx
        .columns[i][0] == ctx.names[i] by {
        assert(ctx.columns[i] == spec_split_ws(rows[i]));
        assert(ctx.names[i] == spec_row_name(rows[i]));
    }
}

/// Builds the selection context from the selected rows: each row is split on
/// whitespace into its columns, and its first token (the empty string for an
/// all-whitespace row) becomes its identifier.
pub fn build_context(
    namespace: &Option<String>,
    resource: &String,
    selected: &Vec<String>,
) -> (r: BindingContext)
    ensures
        r@ == spec_context_of(namespace.deep_view(), resource@, selected.deep_view()),
{
    let ghost rv = selected.deep_view();
    let ghost nsv = namespace.deep_view();
    let mut names: Vec<String> = Vec::new();
    let mut columns: Vec<Vec<String>> = Vec::new();
    let n = selected.len();
    let mut i: usize = 0;
    proof {
        assert(rv.take(0) =~= Seq::<Seq<char>>::empty());
        assert(names.deep_view() =~= spec_context_of(nsv, resource@, rv.take(0)).names);
        assert(columns.deep_view() =~= spec_context_of(nsv, resource@, rv.take(0)).columns);
    }
    while i < n
        invariant
            n == selected@.len(),
            rv == selected.deep_view(),
            i <= n,
            names.deep_view() == spec_context_of(nsv, resource@, rv.take(i as int)).names,
            columns.deep_view() == spec_context_of(nsv, resource@, rv.take(i as int)).columns,
        decreases n - i,
    {
        let cols = split_whitespace(selected[i].as_str());
        let ghost pre_names = names.deep_view();
        let ghost pre_columns = columns.deep_view();
        if cols.len() > 0 {
            names.push(cols[0].clone());
        } else {
            names.push(String::new());
            proof {
                assert(cols.deep_view().len() == 0);
            }
        }
        columns.push(cols);
        proof {
            assert(rv.take(i + 1) =~= rv.take(i as int).push(rv[i as int]));
            assert(names.deep_view() =~= pre_names.push(spec_row_name(rv[i as int])));
            assert(columns.deep_view() =~= pre_columns.push(spec_split_ws(rv[i as int])));
            assert(names.deep_view() =~= spec_context_of(nsv, resource@, rv.take(i + 1)).names);
            assert(columns.deep_view() =~= spec_context_of(nsv, resource@, rv.take(i + 1)).columns);
        }
        i = i + 1;
    }
    proof {
        assert(rv.take(n as int) =~= rv);
    }
    let ns = match namespace {
        Some(s) => Some(s.clone()),
        None => None,
    };
    let r = BindingContext { namespace: ns, resource: resource.clone(), names, columns };
    proof {
        assert(r@.namespace == nsv);
    }
    r
}

/// The message produced when a binding is dispatched against a resource type
/// it does not accept.
pub open spec fn spec_mismatch_message(desc: Seq<char>, resource: Seq<char>) -> Seq<char> {
    desc + " does not work for resource type "@ + resource
}

fn mismatch_message(b: &AnyBinding, resource: &str) -> (r: String)
    ensures
        r@ == spec_mismatch_message(b.description_spec(), resource@),
{
    let mut r = b.description();
    r.append(" does not work for resource type ");
    r.append(resource);
    proof {
        assert(r@ =~= spec_mismatch_message(b.description_spec(), resource@));
    }
    r
}

/// The outcome of dispatching `key` against a selection context: nothing for
/// an unknown trigger, the mismatch message for a binding that does not
/// accept the resource type, the binding's effect otherwise.
pub open spec fn spec_dispatch(
    entries: Seq<AnyBinding>,
    ctx: BindingContextView,
    key: Seq<char>,
) -> Option<EffectView> {
    match spec_find(entries, key) {
        None => None,
        Some(b) => Some(
            if spec_runs_for(b.accepts_spec(), ctx.resource) {
                b.run_spec(ctx)
            } else {
                EffectView::Output(spec_mismatch_message(b.description_spec(), ctx.resource))
            },
        ),
    }
}

/// Resolves the accepted trigger key against the registry and runs the
/// binding on the selection.  An unknown key yields nothing; a known key
/// whose binding does not accept the resource type yields the mismatch
/// message instead of running; otherwise the binding's effect is returned.
pub fn handle_output(
    registry: &BindingRegistry,
    namespace: &Option<String>,
    resource: &String,
    selected: &Vec<String>,
    key: &str,
) -> (r: Option<ActionEffect>)
    ensures
        ({
            let d = spec_dispatch(
                registry.entries_spec(),
                spec_context_of(namespace.deep_view(), resource@, selected.deep_view()),
                key@,
            );
            match r {
                None => d is None,
                Some(e) => d == Some(e@),
            }
        }),
{
    let ctx = build_context(namespace, resource, selected);
    match registry.lookup(key) {
        None => None,
        Some(b) => {
            if !b.runs_for(resource.as_str()) {
                Some(ActionEffect::Output(mismatch_message(b, resource.as_str())))
            } else {
                Some(b.run(&ctx))
            }
        },
    }
}

/// One dispatch step after the picker returns.  No accepted trigger means
/// the user aborted: nothing is produced and nothing runs.  Otherwise the
/// key is dispatched against the selection.
pub fn handle_selection(
    registry: &BindingRegistry,
    namespace: &Option<String>,
    resource: &String,
    selected: &Vec<String>,
    key: Option<&String>,
) -> (r: Option<ActionEffect>)
    ensures
        key is None ==> r is None,
        (match key {
            None => r is None,
            Some(k) => ({
                let d = spec_dispatch(
                    registry.entries_spec(),
                    spec_context_of(namespace.deep_view(), resource@, selected.deep_view()),
                    k@,
                );
                match r {
                    None => d is None,
                    Some(e) => d == Some(e@),
                }
            }),
        }),
{
    match key {
        None => None,
        Some(k) => handle_output(registry, namespace, resource, selected, k.as_str()),
    }
}

/// Splits the listing text into its header line and its data rows, and
/// registers the per-column bindings the header yields.  Listing text with
/// no lines at all yields nothing, as a failed listing does, and leaves the
/// registry unchanged.
pub fn ingest_listing(registry: &mut BindingRegistry, text: &str) -> (r: Option<KubectlOutput>)
    ensures
        r is Some <==> spec_lines(text@).len() > 0,
        r is None ==> *final(registry) == *old(registry),
        old(registry).wf() ==> final(registry).wf(),
        final(registry).entries_spec().take(old(registry).entries_spec().len() as int) == old(
            registry,
        ).entries_spec(),
        r matches Some(out) ==> ({
            let lines = spec_lines(text@);
            &&& out.header@ == lines[0]
            &&& out.items.deep_view() == lines.skip(1)
        }),
        spec_lines(text@).len() > 0 && (forall|q: int|
            1 <= q <= spec_column_binding_count(spec_split_ws(spec_lines(text@)[0]))
                ==> !old(registry).spec_contains_trigger("f"@ + #[trigger] spec_dec(q as nat)))
            ==> ({
            let header_cols = spec_split_ws(spec_lines(text@)[0]);
            let k = spec_column_binding_count(header_cols);
            let old_n = old(registry).entries_spec().len() as int;
            let es = final(registry).entries_spec();
            &&& es.len() == old_n + k
            &&& forall|t: int|
                0 <= t < k ==> ((#[trigger] es[old_n + t]) matches AnyBinding::Column(c)
                    && c.name_spec() == header_cols[t + 1] && c.index_spec() == (t + 1) as nat)
        }),
{
    let lines = split_lines(text);
    if lines.len() == 0 {
        proof {
            assert(lines.deep_view().len() == 0);
        }
        return None;
    }
    let header = lines[0].clone();
    let header_columns = split_whitespace(header.as_str());
    registry.register_column_bindings(&header_columns);
    let ghost lv = lines.deep_view();
    let n = lines.len();
    let mut items: Vec<String> = Vec::new();
    let mut i: usize = 1;
    proof {
        assert(items.deep_view() =~= lv.subrange(1, 1));
    }
    while i < n
        invariant
            n == lines@.len(),
            lv == lines.deep_view(),
            1 <= i <= n,
            items.deep_view() == lv.subrange(1, i as int),
        decreases n - i,
    {
        let ghost pre = items.deep_view();
        items.push(lines[i].clone());
        proof {
            assert(items.deep_view() =~= pre.push(lv[i as int]));
            assert(lv.subrange(1, i + 1) =~= lv.subrange(1, i as int).push(lv[i as int]));
        }
        i = i + 1;
    }
    proof {
        assert(lv.subrange(1, n as int) =~= lv.skip(1));
    }
    Some(KubectlOutput { header, items })
}

/// The picker prompt shown for a resource type.
pub open spec fn spec_prompt(resource: Seq<char>) -> Seq<char> {
    resource + " \u{2388}  "@
}

/// Builds the picker prompt for the resource type.
pub fn picker_prompt(resource: &String) -> (r: String)
    ensures
        r@ == spec_prompt(resource@),
{
    let mut r = resource.clone();
    r.append(" \u{2388}  ");
    r
}

/// The accept-key list handed to the picker: every registered trigger key,
/// comma-separated, in registration order.
pub fn expect_keys(registry: &BindingRegistry) -> (r: String)
    ensures
        r@ == spec_join(registry.triggers(), ","@),
{
    let keys = registry.trigger_keys();
    join(&keys, ",")
}

} // verus!
