//! The action layer: key-triggered bindings that can be dispatched against a
//! selection of listing rows.
//!
//! A binding names its trigger key, a human description, and the resource
//! types it accepts (an empty list accepts every resource type).  Running a
//! binding never performs external work itself: it returns an [`ActionEffect`]
//! that tells the unverified shell what to do — print a string, run a cluster
//! command, stream logs, or fill the clipboard.

use vstd::prelude::*;

use crate::kubectl::{kubectl_base_cmd, spec_base_cmd};
use crate::text::{
    append_all, join, spec_dec, spec_join, str_eq, usize_to_string,
};

verus! {

/// Mathematical model of a [`BindingContext`].
pub struct BindingContextView {
    pub namespace: Option<Seq<char>>,
    pub resource: Seq<char>,
    pub names: Seq<Seq<char>>,
    pub columns: Seq<Seq<Seq<char>>>,
}

/// The per-dispatch snapshot handed to a binding: the namespace and resource
/// type of the run, the identifiers of the selected rows, and the selected
/// rows split into whitespace-delimited columns, one column vector per row.
pub struct BindingContext {
    pub namespace: Option<String>,
    pub resource: String,
    pub names: Vec<String>,
    pub columns: Vec<Vec<String>>,
}

impl View for BindingContext {
    type V = BindingContextView;

    open spec fn view(&self) -> BindingContextView {
        BindingContextView {
            namespace: self.namespace.deep_view(),
            resource: self.resource@,
            names: self.names.deep_view(),
            columns: self.columns.deep_view(),
        }
    }
}

impl BindingContext {
    /// The aliases under which pods are listed.
    pub fn accepts_pods() -> (r: Vec<String>)
        ensures
            r.deep_view() == spec_pod_aliases(),
    {
        let mut r: Vec<String> = Vec::new();
        r.push(String::from_str("pods"));
        r.push(String::from_str("pod"));
        r.push(String::from_str("po"));
        proof {
            assert(r.deep_view() =~= spec_pod_aliases());
        }
        r
    }

    /// The aliases under which nodes are listed.
    pub fn accepts_nodes() -> (r: Vec<String>)
        ensures
            r.deep_view() == spec_node_aliases(),
    {
        let mut r: Vec<String> = Vec::new();
        r.push(String::from_str("nodes"));
        r.push(String::from_str("node"));
        r.push(String::from_str("no"));
        proof {
            assert(r.deep_view() =~= spec_node_aliases());
        }
        r
    }

    /// The aliases under which service accounts are listed.
    pub fn accepts_service_accounts() -> (r: Vec<String>)
        ensures
            r.deep_view() == spec_service_account_aliases(),
    {
        let mut r: Vec<String> = Vec::new();
        r.push(String::from_str("serviceaccounts"));
        r.push(String::from_str("sa"));
        proof {
            assert(r.deep_view() =~= spec_service_account_aliases());
        }
        r
    }
}

pub open spec fn spec_pod_aliases() -> Seq<Seq<char>> {
    seq!["pods"@, "pod"@, "po"@]
}

pub open spec fn spec_node_aliases() -> Seq<Seq<char>> {
    seq!["nodes"@, "node"@, "no"@]
}

pub open spec fn spec_service_account_aliases() -> Seq<Seq<char>> {
    seq!["serviceaccounts"@, "sa"@]
}

/// Mathematical model of an [`ActionEffect`].
pub enum EffectView {
    Output(Seq<char>),
    Capture(Seq<Seq<char>>),
    PassThrough(Seq<Seq<char>>),
    Follow(Seq<Seq<char>>),
    SetClipboard(Seq<char>),
}

/// What a binding asks the unverified shell to do.
///
/// The argument vectors are the arguments of the external cluster command,
/// program name excluded.
#[derive(Debug)]
pub enum ActionEffect {
    /// Text meant for standard output, already computed.
    Output(String),
    /// Run the cluster command, capture its standard output, and treat that
    /// text as the run's result; a failing command yields no result.
    Capture(Vec<String>),
    /// Run the cluster command with standard output connected to the real
    /// terminal, so that interactive editors work; nothing is captured.
    PassThrough(Vec<String>),
    /// Run the cluster command and copy its standard output to ours in
    /// bounded increments until the stream closes; nothing is returned.
    Follow(Vec<String>),
    /// Write the string to the system clipboard, best effort; no output.
    SetClipboard(String),
}

impl View for ActionEffect {
    type V = EffectView;

    open spec fn view(&self) -> EffectView {
        match self {
            ActionEffect::Output(s) => EffectView::Output(s@),
            ActionEffect::Capture(a) => EffectView::Capture(a.deep_view()),
            ActionEffect::PassThrough(a) => EffectView::PassThrough(a.deep_view()),
            ActionEffect::Follow(a) => EffectView::Follow(a.deep_view()),
            ActionEffect::SetClipboard(s) => EffectView::SetClipboard(s@),
        }
    }
}

/// A binding applies to `resource` when its accepted list is empty (it is
/// universal) or names `resource`.
pub open spec fn spec_runs_for(accepts: Seq<Seq<char>>, resource: Seq<char>) -> bool {
    accepts.len() == 0 || accepts.contains(resource)
}

/// The preview line of a binding: its description and a human-readable key
/// label, coloured and tab-separated for the aligned preview block.  The
/// reserved empty trigger is shown as the word for the default accept key.
pub open spec fn spec_preview_line(desc: Seq<char>, key: Seq<char>) -> Seq<char> {
    let key_repr = if key.len() == 0 {
        "enter"@
    } else {
        key
    };
    "\x1b[31m"@ + desc + "\t\x1b[33m"@ + key_repr + "\x1b[0m"@
}

/// A key-triggered action that can be dispatched against a selection.
///
/// The four spec functions are the binding's model: its trigger key, its
/// description, its accepted resource types and the effect of a run.  The
/// executable methods are bound to that model by their contracts.
pub trait Binding: Sized {
    /// The trigger key, as the picker reports it; empty for default accept.
    spec fn key_spec(&self) -> Seq<char>;

    /// The human-readable name of the action.
    spec fn description_spec(&self) -> Seq<char>;

    /// The accepted resource-type aliases; empty means universal.
    spec fn accepts_spec(&self) -> Seq<Seq<char>>;

    /// The effect of running the binding against a selection context.
    spec fn run_spec(&self, ctx: BindingContextView) -> EffectView;

    fn key(&self) -> (r: String)
        ensures
            r@ == self.key_spec(),
    ;

    fn description(&self) -> (r: String)
        ensures
            r@ == self.description_spec(),
    ;

    fn accepts(&self) -> (r: Vec<String>)
        ensures
            r.deep_view() == self.accepts_spec(),
    ;

    fn run(&self, ctx: &BindingContext) -> (r: ActionEffect)
        ensures
            r@ == self.run_spec(ctx@),
    ;

    /// Whether this binding applies to the resource type: true exactly when
    /// the accepted list is empty or contains `resource`.
    fn runs_for(&self, resource: &str) -> (r: bool)
        ensures
            r == spec_runs_for(self.accepts_spec(), resource@),
    {
        let accepts = self.accepts();
        if accepts.len() == 0 {
            proof {
                assert(accepts.deep_view().len() == accepts@.len());
            }
            return true;
        }
        let ghost av = accepts.deep_view();
        let mut i: usize = 0;
        while i < accepts.len()
            invariant
                av == accepts.deep_view(),
                av == self.accepts_spec(),
                i <= accepts@.len(),
                forall|k: int| 0 <= k < i ==> av[k] != resource@,
            decreases accepts@.len() - i,
        {
            if str_eq(accepts[i].as_str(), resource) {
                proof {
                    assert(av[i as int] == resource@);
                    assert(av.contains(resource@));
                }
                return true;
            }
            i = i + 1;
        }
        proof {
            if av.contains(resource@) {
                let j = choose|j: int| 0 <= j < av.len() && av[j] == resource@;
                assert(av[j] != resource@);
            }
        }
        false
    }

    /// One formatted preview line pairing the description with the key label.
    fn preview(&self) -> (r: String)
        ensures
            r@ == spec_preview_line(self.description_spec(), self.key_spec()),
    {
        let mut r = String::from_str("\x1b[31m");
        let desc = self.description();
        r.append(desc.as_str());
        r.append("\t\x1b[33m");
        let key = self.key();
        if key.as_str().unicode_len() == 0 {
            r.append("enter");
        } else {
            r.append(key.as_str());
        }
        r.append("\x1b[0m");
        proof {
            assert(r@ =~= spec_preview_line(self.description_spec(), self.key_spec()));
        }
        r
    }
}

/// Returns the names of the selected items, one per line.
pub struct Names;

impl Binding for Names {
    open spec fn key_spec(&self) -> Seq<char> {
        Seq::empty()
    }

    open spec fn description_spec(&self) -> Seq<char> {
        "Names"@
    }

    open spec fn accepts_spec(&self) -> Seq<Seq<char>> {
        Seq::empty()
    }

    open spec fn run_spec(&self, ctx: BindingContextView) -> EffectView {
        EffectView::Output(spec_join(ctx.names, "\n"@))
    }

    fn key(&self) -> (r: String) {
        String::new()
    }

    fn description(&self) -> (r: String) {
        String::from_str("Names")
    }

    fn accepts(&self) -> (r: Vec<String>) {
        let r: Vec<String> = Vec::new();
        proof {
            assert(r.deep_view() =~= Seq::<Seq<char>>::empty());
        }
        r
    }

    fn run(&self, ctx: &BindingContext) -> (r: ActionEffect) {
        ActionEffect::Output(join(&ctx.names, "\n"))
    }
}

/// Structured dump of the selected items in JSON:
/// `get --output json <resource> <items..>`.
pub struct Json;

impl Binding for Json {
    open spec fn key_spec(&self) -> Seq<char> {
        "ctrl-j"@
    }

    open spec fn description_spec(&self) -> Seq<char> {
        "Json"@
    }

    open spec fn accepts_spec(&self) -> Seq<Seq<char>> {
        Seq::empty()
    }

    open spec fn run_spec(&self, ctx: BindingContextView) -> EffectView {
        EffectView::Capture(
            spec_base_cmd(ctx.namespace, "get"@, Some(ctx.resource)) + seq!["--output"@, "json"@]
                + ctx.names,
        )
    }

    fn key(&self) -> (r: String) {
        String::from_str("ctrl-j")
    }

    fn description(&self) -> (r: String) {
        String::from_str("Json")
    }

    fn accepts(&self) -> (r: Vec<String>) {
        let r: Vec<String> = Vec::new();
        proof {
            assert(r.deep_view() =~= Seq::<Seq<char>>::empty());
        }
        r
    }

    fn run(&self, ctx: &BindingContext) -> (r: ActionEffect) {
        let mut args = kubectl_base_cmd(ctx.namespace.as_ref(), "get", Some(&ctx.resource));
        args.push(String::from_str("--output"));
        args.push(String::from_str("json"));
        append_all(&mut args, &ctx.names);
        proof {
            assert(args.deep_view() =~= spec_base_cmd(ctx@.namespace, "get"@, Some(ctx@.resource))
                + seq!["--output"@, "json"@] + ctx@.names);
        }
        ActionEffect::Capture(args)
    }
}

/// Structured dump of the selected items in YAML:
/// `get --output yaml <resource> <items..>`.
pub struct Yaml;

impl Binding for Yaml {
    open spec fn key_spec(&self) -> Seq<char> {
        "ctrl-y"@
    }

    open spec fn description_spec(&self) -> Seq<char> {
        "Yaml"@
    }

    open spec fn accepts_spec(&self) -> Seq<Seq<char>> {
        Seq::empty()
    }

    open spec fn run_spec(&self, ctx: BindingContextView) -> EffectView {
        EffectView::Capture(
            spec_base_cmd(ctx.namespace, "get"@, Some(ctx.resource)) + seq!["--output"@, "yaml"@]
                + ctx.names,
        )
    }

    fn key(&self) -> (r: String) {
        String::from_str("ctrl-y")
    }

    fn description(&self) -> (r: String) {
        String::from_str("Yaml")
    }

    fn accepts(&self) -> (r: Vec<String>) {
        let r: Vec<String> = Vec::new();
        proof {
            assert(r.deep_view() =~= Seq::<Seq<char>>::empty());
        }
        r
    }

    fn run(&self, ctx: &BindingContext) -> (r: ActionEffect) {
        let mut args = kubectl_base_cmd(ctx.namespace.as_ref(), "get", Some(&ctx.resource));
        args.push(String::from_str("--output"));
        args.push(String::from_str("yaml"));
        append_all(&mut args, &ctx.names);
        proof {
            assert(args.deep_view() =~= spec_base_cmd(ctx@.namespace, "get"@, Some(ctx@.resource))
                + seq!["--output"@, "yaml"@] + ctx@.names);
        }
        ActionEffect::Capture(args)
    }
}

/// Detailed description of the selected items: `describe <resource> <items..>`.
pub struct Describe;

impl Binding for Describe {
    open spec fn key_spec(&self) -> Seq<char> {
        "ctrl-d"@
    }

    open spec fn description_spec(&self) -> Seq<char> {
        "Describe"@
    }

    open spec fn accepts_spec(&self) -> Seq<Seq<char>> {
        Seq::empty()
    }

    open spec fn run_spec(&self, ctx: BindingContextView) -> EffectView {
        EffectView::Capture(spec_base_cmd(ctx.namespace, "describe"@, Some(ctx.resource)) + ctx.names)
    }

    fn key(&self) -> (r: String) {
        String::from_str("ctrl-d")
    }

    fn description(&self) -> (r: String) {
        String::from_str("Describe")
    }

    fn accepts(&self) -> (r: Vec<String>) {
        let r: Vec<String> = Vec::new();
        proof {
            assert(r.deep_view() =~= Seq::<Seq<char>>::empty());
        }
        r
    }

    fn run(&self, ctx: &BindingContext) -> (r: ActionEffect) {
        let mut args = kubectl_base_cmd(ctx.namespace.as_ref(), "describe", Some(&ctx.resource));
        append_all(&mut args, &ctx.names);
        ActionEffect::Capture(args)
    }
}

/// Opens the selected items in the user's editor: `edit <resource> <items..>`,
/// with output handed to the real terminal so the editor works.
pub struct Edit;

impl Binding for Edit {
    open spec fn key_spec(&self) -> Seq<char> {
        "ctrl-e"@
    }

    open spec fn description_spec(&self) -> Seq<char> {
        "Edit"@
    }

    open spec fn accepts_spec(&self) -> Seq<Seq<char>> {
        Seq::empty()
    }

    open spec fn run_spec(&self, ctx: BindingContextView) -> EffectView {
        EffectView::PassThrough(spec_base_cmd(ctx.namespace, "edit"@, Some(ctx.resource)) + ctx.names)
    }

    fn key(&self) -> (r: String) {
        String::from_str("ctrl-e")
    }

    fn description(&self) -> (r: String) {
        String::from_str("Edit")
    }

    fn accepts(&self) -> (r: Vec<String>) {
        let r: Vec<String> = Vec::new();
        proof {
            assert(r.deep_view() =~= Seq::<Seq<char>>::empty());
        }
        r
    }

    fn run(&self, ctx: &BindingContext) -> (r: ActionEffect) {
        let mut args = kubectl_base_cmd(ctx.namespace.as_ref(), "edit", Some(&ctx.resource));
        append_all(&mut args, &ctx.names);
        ActionEffect::PassThrough(args)
    }
}

/// Tails the logs of one selected pod: `logs --follow --all-containers <pod>`.
/// Refuses a selection of more than one item with an explanatory message.
pub struct Logs;

impl Binding for Logs {
    open spec fn key_spec(&self) -> Seq<char> {
        "ctrl-l"@
    }

    open spec fn description_spec(&self) -> Seq<char> {
        "Logs"@
    }

    open spec fn accepts_spec(&self) -> Seq<Seq<char>> {
        spec_pod_aliases()
    }

    open spec fn run_spec(&self, ctx: BindingContextView) -> EffectView {
        if ctx.names.len() > 1 {
            EffectView::Output("Cannot get logs of more than one pod at a time"@)
        } else {
            EffectView::Follow(
                spec_base_cmd(ctx.namespace, "logs"@, None) + seq!["--follow"@, "--all-containers"@]
                    + ctx.names,
            )
        }
    }

    fn key(&self) -> (r: String) {
        String::from_str("ctrl-l")
    }

    fn description(&self) -> (r: String) {
        String::from_str("Logs")
    }

    fn accepts(&self) -> (r: Vec<String>) {
        BindingContext::accepts_pods()
    }

    fn run(&self, ctx: &BindingContext) -> (r: ActionEffect) {
        if ctx.names.len() > 1 {
            return ActionEffect::Output(
                String::from_str("Cannot get logs of more than one pod at a time"),
            );
        }
        let mut args = kubectl_base_cmd(ctx.namespace.as_ref(), "logs", None);
        args.push(String::from_str("--follow"));
        args.push(String::from_str("--all-containers"));
        append_all(&mut args, &ctx.names);
        proof {
            assert(args.deep_view() =~= spec_base_cmd(ctx@.namespace, "logs"@, None) + seq![
                "--follow"@,
                "--all-containers"@,
            ] + ctx@.names);
        }
        ActionEffect::Follow(args)
    }
}

/// Copies the names of the selected items to the clipboard, one per line.
pub struct Copy;

impl Binding for Copy {
    open spec fn key_spec(&self) -> Seq<char> {
        "ctrl-space"@
    }

    open spec fn description_spec(&self) -> Seq<char> {
        "Copy"@
    }

    open spec fn accepts_spec(&self) -> Seq<Seq<char>> {
        Seq::empty()
    }

    open spec fn run_spec(&self, ctx: BindingContextView) -> EffectView {
        EffectView::SetClipboard(spec_join(ctx.names, "\n"@))
    }

    fn key(&self) -> (r: String) {
        String::from_str("ctrl-space")
    }

    fn description(&self) -> (r: String) {
        String::from_str("Copy")
    }

    fn accepts(&self) -> (r: Vec<String>) {
        let r: Vec<String> = Vec::new();
        proof {
            assert(r.deep_view() =~= Seq::<Seq<char>>::empty());
        }
        r
    }

    fn run(&self, ctx: &BindingContext) -> (r: ActionEffect) {
        ActionEffect::SetClipboard(join(&ctx.names, "\n"))
    }
}

/// Marks the selected nodes unschedulable: `cordon <nodes..>`.
pub struct Cordon;

impl Binding for Cordon {
    open spec fn key_spec(&self) -> Seq<char> {
        "ctrl-k"@
    }

    open spec fn description_spec(&self) -> Seq<char> {
        "Cordon"@
    }

    open spec fn accepts_spec(&self) -> Seq<Seq<char>> {
        spec_node_aliases()
    }

    open spec fn run_spec(&self, ctx: BindingContextView) -> EffectView {
        EffectView::Capture(spec_base_cmd(ctx.namespace, "cordon"@, None) + ctx.names)
    }

    fn key(&self) -> (r: String) {
        String::from_str("ctrl-k")
    }

    fn description(&self) -> (r: String) {
        String::from_str("Cordon")
    }

    fn accepts(&self) -> (r: Vec<String>) {
        BindingContext::accepts_nodes()
    }

    fn run(&self, ctx: &BindingContext) -> (r: ActionEffect) {
        let mut args = kubectl_base_cmd(ctx.namespace.as_ref(), "cordon", None);
        append_all(&mut args, &ctx.names);
        ActionEffect::Capture(args)
    }
}

/// Marks the selected nodes schedulable again: `uncordon <nodes..>`.
pub struct Uncordon;

impl Binding for Uncordon {
    open spec fn key_spec(&self) -> Seq<char> {
        "ctrl-u"@
    }

    open spec fn description_spec(&self) -> Seq<char> {
        "Uncordon"@
    }

    open spec fn accepts_spec(&self) -> Seq<Seq<char>> {
        spec_node_aliases()
    }

    open spec fn run_spec(&self, ctx: BindingContextView) -> EffectView {
        EffectView::Capture(spec_base_cmd(ctx.namespace, "uncordon"@, None) + ctx.names)
    }

    fn key(&self) -> (r: String) {
        String::from_str("ctrl-u")
    }

    fn description(&self) -> (r: String) {
        String::from_str("Uncordon")
    }

    fn accepts(&self) -> (r: Vec<String>) {
        BindingContext::accepts_nodes()
    }

    fn run(&self, ctx: &BindingContext) -> (r: ActionEffect) {
        let mut args = kubectl_base_cmd(ctx.namespace.as_ref(), "uncordon", None);
        append_all(&mut args, &ctx.names);
        ActionEffect::Capture(args)
    }
}

/// The values of the selected rows at one column, skipping rows with fewer
/// columns than the index.
pub open spec fn spec_column_values(columns: Seq<Seq<Seq<char>>>, index: int) -> Seq<Seq<char>>
    decreases columns.len(),
{
    if columns.len() == 0 {
        Seq::empty()
    } else {
        let rest = spec_column_values(columns.drop_first(), index);
        if 0 <= index < columns[0].len() {
            seq![columns[0][index]] + rest
        } else {
            rest
        }
    }
}

/// Returns, for every selected row that is wide enough, the value at one
/// column position, one value per line.  Registered dynamically, one binding
/// per header column, with a function-key trigger encoding the position.
pub struct Column {
    name: String,
    index: usize,
}

impl Column {
    /// The header name of the column.
    pub closed spec fn name_spec(&self) -> Seq<char> {
        self.name@
    }

    /// The 1-based position of the column among the header tokens.
    pub closed spec fn index_spec(&self) -> nat {
        self.index as nat
    }

    pub fn new(name: String, index: usize) -> (r: Self)
        ensures
            r.name_spec() == name@,
            r.index_spec() == index as nat,
    {
        Column { name, index }
    }
}

impl Binding for Column {
    open spec fn key_spec(&self) -> Seq<char> {
        "f"@ + spec_dec(self.index_spec())
    }

    open spec fn description_spec(&self) -> Seq<char> {
        spec_dec(self.index_spec()) + ":"@ + self.name_spec()
    }

    open spec fn accepts_spec(&self) -> Seq<Seq<char>> {
        Seq::empty()
    }

    open spec fn run_spec(&self, ctx: BindingContextView) -> EffectView {
        EffectView::Output(spec_join(spec_column_values(ctx.columns, self.index_spec() as int), "\n"@))
    }

    fn key(&self) -> (r: String) {
        let mut r = String::from_str("f");
        let digits = usize_to_string(self.index);
        r.append(digits.as_str());
        r
    }

    fn description(&self) -> (r: String) {
        let mut r = usize_to_string(self.index);
        r.append(":");
        r.append(self.name.as_str());
        proof {
            assert(r@ =~= self.description_spec());
        }
        r
    }

    fn accepts(&self) -> (r: Vec<String>) {
        let r: Vec<String> = Vec::new();
        proof {
            assert(r.deep_view() =~= Seq::<Seq<char>>::empty());
        }
        r
    }

    fn run(&self, ctx: &BindingContext) -> (r: ActionEffect) {
        let ghost cols = ctx.columns.deep_view();
        let ghost idx = self.index_spec() as int;
        let mut vals: Vec<String> = Vec::new();
        let mut i: usize = 0;
        proof {
            assert(cols.skip(0) =~= cols);
            assert(vals.deep_view() =~= Seq::<Seq<char>>::empty());
            assert(vals.deep_view() + spec_column_values(cols, idx) =~= spec_column_values(
                cols,
                idx,
            ));
        }
        while i < ctx.columns.len()
            invariant
                i <= ctx.columns@.len(),
                cols == ctx.columns.deep_view(),
                idx == self.index_spec() as int,
                spec_column_values(cols, idx) == vals.deep_view() + spec_column_values(
                    cols.skip(i as int),
                    idx,
                ),
            decreases ctx.columns@.len() - i,
        {
            let row = &ctx.columns[i];
            let ghost old_vals = vals.deep_view();
            if self.index < row.len() {
                vals.push(row[self.index].clone());
            }
            proof {
                let t = cols.skip(i as int);
                assert(t[0] == cols[i as int]);
                assert(t.drop_first() =~= cols.skip(i + 1));
                if 0 <= idx < cols[i as int].len() {
                    assert(vals.deep_view() =~= old_vals.push(cols[i as int][idx]));
                    assert(vals.deep_view() + spec_column_values(cols.skip(i + 1), idx) =~= old_vals
                        + spec_column_values(t, idx));
                } else {
                    assert(vals.deep_view() + spec_column_values(cols.skip(i + 1), idx) =~= old_vals
                        + spec_column_values(t, idx));
                }
            }
            i = i + 1;
        }
        proof {
            assert(cols.skip(ctx.columns@.len() as int) =~= Seq::<Seq<Seq<char>>>::empty());
            assert(vals.deep_view() =~= spec_column_values(cols, idx));
        }
        ActionEffect::Output(join(&vals, "\n"))
    }
}

} // verus!
