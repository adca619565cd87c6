//! The binding registry: the mutable collection of actions keyed by trigger,
//! built at startup, extended once with per-column bindings when the listing
//! header is known, and read by the dispatch loop and by every row preview.
//!
//! The one registry invariant is that trigger keys are pairwise distinct;
//! registering a duplicate fails and leaves the registry unchanged.

use vstd::prelude::*;

use crate::bindings::{
    ActionEffect, Binding, BindingContext, Column, Cordon, Describe, Edit, Json, Logs, Names,
    Uncordon, Yaml, spec_preview_line, spec_runs_for,
};
use crate::order::{lemma_lex_leq_total_ordering, lex_leq, sort_strings};
use crate::text::{
    join, lemma_concat_cancel_prefix, lemma_dec_injective, spec_dec, spec_join, str_eq,
};
use vstd::relations::sorted_by;
use vstd::seq_lib::lemma_sorted_unique;

verus! {

/// One registered action: the closed set of bindings the selector knows.
pub enum AnyBinding {
    Names(Names),
    Json(Json),
    Yaml(Yaml),
    Describe(Describe),
    Edit(Edit),
    Logs(Logs),
    Copy(crate::bindings::Copy),
    Cordon(Cordon),
    Uncordon(Uncordon),
    Column(Column),
}

impl Binding for AnyBinding {
    open spec fn key_spec(&self) -> Seq<char> {
        match self {
            AnyBinding::Names(b) => b.key_spec(),
            AnyBinding::Json(b) => b.key_spec(),
            AnyBinding::Yaml(b) => b.key_spec(),
            AnyBinding::Describe(b) => b.key_spec(),
            AnyBinding::Edit(b) => b.key_spec(),
            AnyBinding::Logs(b) => b.key_spec(),
            AnyBinding::Copy(b) => b.key_spec(),
            AnyBinding::Cordon(b) => b.key_spec(),
            AnyBinding::Uncordon(b) => b.key_spec(),
            AnyBinding::Column(b) => b.key_spec(),
        }
    }

    open spec fn description_spec(&self) -> Seq<char> {
        match self {
            AnyBinding::Names(b) => b.description_spec(),
            AnyBinding::Json(b) => b.description_spec(),
            AnyBinding::Yaml(b) => b.description_spec(),
            AnyBinding::Describe(b) => b.description_spec(),
            AnyBinding::Edit(b) => b.description_spec(),
            AnyBinding::Logs(b) => b.description_spec(),
            AnyBinding::Copy(b) => b.description_spec(),
            AnyBinding::Cordon(b) => b.description_spec(),
            AnyBinding::Uncordon(b) => b.description_spec(),
            AnyBinding::Column(b) => b.description_spec(),
        }
    }

    open spec fn accepts_spec(&self) -> Seq<Seq<char>> {
        match self {
            AnyBinding::Names(b) => b.accepts_spec(),
            AnyBinding::Json(b) => b.accepts_spec(),
            AnyBinding::Yaml(b) => b.accepts_spec(),
            AnyBinding::Describe(b) => b.accepts_spec(),
            AnyBinding::Edit(b) => b.accepts_spec(),
            AnyBinding::Logs(b) => b.accepts_spec(),
            AnyBinding::Copy(b) => b.accepts_spec(),
            AnyBinding::Cordon(b) => b.accepts_spec(),
            AnyBinding::Uncordon(b) => b.accepts_spec(),
            AnyBinding::Column(b) => b.accepts_spec(),
        }
    }

    open spec fn run_spec(&self, ctx: crate::bindings::BindingContextView) -> crate::bindings::EffectView {
        match self {
            AnyBinding::Names(b) => b.run_spec(ctx),
            AnyBinding::Json(b) => b.run_spec(ctx),
            AnyBinding::Yaml(b) => b.run_spec(ctx),
            AnyBinding::Describe(b) => b.run_spec(ctx),
            AnyBinding::Edit(b) => b.run_spec(ctx),
            AnyBinding::Logs(b) => b.run_spec(ctx),
            AnyBinding::Copy(b) => b.run_spec(ctx),
            AnyBinding::Cordon(b) => b.run_spec(ctx),
            AnyBinding::Uncordon(b) => b.run_spec(ctx),
            AnyBinding::Column(b) => b.run_spec(ctx),
        }
    }

    fn key(&self) -> (r: String) {
        match self {
            AnyBinding::Names(b) => b.key(),
            AnyBinding::Json(b) => b.key(),
            AnyBinding::Yaml(b) => b.key(),
            AnyBinding::Describe(b) => b.key(),
            AnyBinding::Edit(b) => b.key(),
            AnyBinding::Logs(b) => b.key(),
            AnyBinding::Copy(b) => b.key(),
            AnyBinding::Cordon(b) => b.key(),
            AnyBinding::Uncordon(b) => b.key(),
            AnyBinding::Column(b) => b.key(),
        }
    }

    fn description(&self) -> (r: String) {
        match self {
            AnyBinding::Names(b) => b.description(),
            AnyBinding::Json(b) => b.description(),
            AnyBinding::Yaml(b) => b.description(),
            AnyBinding::Describe(b) => b.description(),
            AnyBinding::Edit(b) => b.description(),
            AnyBinding::Logs(b) => b.description(),
            AnyBinding::Copy(b) => b.description(),
            AnyBinding::Cordon(b) => b.description(),
            AnyBinding::Uncordon(b) => b.description(),
            AnyBinding::Column(b) => b.description(),
        }
    }

    fn accepts(&self) -> (r: Vec<String>) {
        match self {
            AnyBinding::Names(b) => b.accepts(),
            AnyBinding::Json(b) => b.accepts(),
            AnyBinding::Yaml(b) => b.accepts(),
            AnyBinding::Describe(b) => b.accepts(),
            AnyBinding::Edit(b) => b.accepts(),
            AnyBinding::Logs(b) => b.accepts(),
            AnyBinding::Copy(b) => b.accepts(),
            AnyBinding::Cordon(b) => b.accepts(),
            AnyBinding::Uncordon(b) => b.accepts(),
            AnyBinding::Column(b) => b.accepts(),
        }
    }

    fn run(&self, ctx: &BindingContext) -> (r: ActionEffect) {
        match self {
            AnyBinding::Names(b) => b.run(ctx),
            AnyBinding::Json(b) => b.run(ctx),
            AnyBinding::Yaml(b) => b.run(ctx),
            AnyBinding::Describe(b) => b.run(ctx),
            AnyBinding::Edit(b) => b.run(ctx),
            AnyBinding::Logs(b) => b.run(ctx),
            AnyBinding::Copy(b) => b.run(ctx),
            AnyBinding::Cordon(b) => b.run(ctx),
            AnyBinding::Uncordon(b) => b.run(ctx),
            AnyBinding::Column(b) => b.run(ctx),
        }
    }
}

/// The trigger keys of `entries`, in order.
pub open spec fn spec_triggers_of(entries: Seq<AnyBinding>) -> Seq<Seq<char>> {
    entries.map_values(|b: AnyBinding| b.key_spec())
}

/// The first binding of `entries` whose trigger is `key`, if any.
pub open spec fn spec_find(entries: Seq<AnyBinding>, key: Seq<char>) -> Option<AnyBinding>
    decreases entries.len(),
{
    if entries.len() == 0 {
        None
    } else if entries[0].key_spec() == key {
        Some(entries[0])
    } else {
        spec_find(entries.drop_first(), key)
    }
}

/// The registry: registered bindings in registration order, with pairwise
/// distinct trigger keys.
pub struct BindingRegistry {
    entries: Vec<AnyBinding>,
}

impl BindingRegistry {
    /// The registered bindings, in registration order.
    pub closed spec fn entries_spec(&self) -> Seq<AnyBinding> {
        self.entries@
    }

    /// The registered trigger keys, in registration order.
    pub open spec fn triggers(&self) -> Seq<Seq<char>> {
        spec_triggers_of(self.entries_spec())
    }

    /// The registry invariant: trigger keys are pairwise distinct.
    pub open spec fn wf(&self) -> bool {
        forall|i: int, j: int|
            0 <= i < j < self.triggers().len() ==> self.triggers()[i] != self.triggers()[j]
    }

    /// Whether some registered binding has the trigger `key`.
    pub open spec fn spec_contains_trigger(&self, key: Seq<char>) -> bool {
        self.triggers().contains(key)
    }

    /// The registered binding with the trigger `key`, if any.
    pub open spec fn spec_lookup(&self, key: Seq<char>) -> Option<AnyBinding> {
        spec_find(self.entries_spec(), key)
    }

    /// An empty registry.
    pub fn new() -> (r: Self)
        ensures
            r.entries_spec() == Seq::<AnyBinding>::empty(),
            r.wf(),
    {
        let r = BindingRegistry { entries: Vec::new() };
        proof {
            assert(r.entries_spec() =~= Seq::<AnyBinding>::empty());
        }
        r
    }

    /// Whether the trigger `key` is already registered.
    pub fn contains_trigger(&self, key: &str) -> (r: bool)
        ensures
            r == self.spec_contains_trigger(key@),
    {
        let ghost ts = self.triggers();
        let n = self.entries.len();
        let mut i: usize = 0;
        while i < n
            invariant
                n == self.entries@.len(),
                ts == self.triggers(),
                i <= n,
                forall|k: int| 0 <= k < i ==> ts[k] != key@,
            decreases n - i,
        {
            let bk = self.entries[i].key();
            if str_eq(bk.as_str(), key) {
                proof {
                    assert(ts[i as int] == key@);
                    assert(ts.contains(key@));
                }
                return true;
            }
            i = i + 1;
        }
        proof {
            if ts.contains(key@) {
                let j = choose|j: int| 0 <= j < ts.len() && ts[j] == key@;
                assert(ts[j] != key@);
            }
        }
        false
    }

    /// Registers `b` when its trigger is still free.  A duplicate trigger is
    /// a configuration error: registration fails and the registry is
    /// unchanged, so registered triggers stay pairwise distinct.
    pub fn register(&mut self, b: AnyBinding) -> (r: bool)
        ensures
            r == !old(self).spec_contains_trigger(b.key_spec()),
            r ==> final(self).entries_spec() == old(self).entries_spec().push(b),
            !r ==> *final(self) == *old(self),
            old(self).wf() ==> final(self).wf(),
    {
        let k = b.key();
        if self.contains_trigger(k.as_str()) {
            false
        } else {
            self.entries.push(b);
            proof {
                let oldt = old(self).triggers();
                let newt = self.triggers();
                assert(newt =~= oldt.push(b.key_spec()));
                if old(self).wf() {
                    assert forall|i: int, j: int| 0 <= i < j < newt.len() implies newt[i]
                        != newt[j] by {
                        if j < oldt.len() {
                            assert(oldt[i] != oldt[j]);
                        } else {
                            if newt[i] == b.key_spec() {
                                assert(oldt[i] == b.key_spec());
                                assert(oldt.contains(b.key_spec()));
                            }
                        }
                    }
                }
            }
            true
        }
    }

    /// Looks the trigger `key` up among the registered bindings.
    pub fn lookup(&self, key: &str) -> (r: Option<&AnyBinding>)
        ensures
            (match r {
                Some(b) => self.spec_lookup(key@) == Some(*b),
                None => self.spec_lookup(key@) is None,
            }),
    {
        let ghost es = self.entries_spec();
        let n = self.entries.len();
        let mut i: usize = 0;
        proof {
            assert(es.skip(0) =~= es);
        }
        while i < n
            invariant
                n == self.entries@.len(),
                es == self.entries_spec(),
                i <= n,
                spec_find(es, key@) == spec_find(es.skip(i as int), key@),
            decreases n - i,
        {
            let bk = self.entries[i].key();
            proof {
                let t = es.skip(i as int);
                assert(t[0] == es[i as int]);
                assert(t.drop_first() =~= es.skip(i + 1));
            }
            if str_eq(bk.as_str(), key) {
                return Some(&self.entries[i]);
            }
            i = i + 1;
        }
        proof {
            assert(es.skip(n as int) =~= Seq::<AnyBinding>::empty());
        }
        None
    }

    /// The registered trigger keys as strings, in registration order: the
    /// accept keys handed to the picker.
    pub fn trigger_keys(&self) -> (r: Vec<String>)
        ensures
            r.deep_view() == self.triggers(),
    {
        let ghost ts = self.triggers();
        let n = self.entries.len();
        let mut r: Vec<String> = Vec::new();
        let mut i: usize = 0;
        proof {
            assert(r.deep_view() =~= Seq::<Seq<char>>::empty());
            assert(ts.take(0) =~= Seq::<Seq<char>>::empty());
        }
        while i < n
            invariant
                n == self.entries@.len(),
                ts == self.triggers(),
                i <= n,
                r.deep_view() == ts.take(i as int),
            decreases n - i,
        {
            let ghost pre = r.deep_view();
            r.push(self.entries[i].key());
            proof {
                assert(r.deep_view() =~= pre.push(ts[i as int]));
                assert(ts.take(i + 1) =~= ts.take(i as int).push(ts[i as int]));
            }
            i = i + 1;
        }
        proof {
            assert(ts.take(n as int) =~= ts);
        }
        r
    }
}

/// Trigger uniqueness: in a well-formed registry — one built by `new` and
/// grown only through `register`, which refuses a binding whose trigger is
/// already taken — no two registered bindings share a trigger key.
pub proof fn lemma_registered_triggers_distinct(r: BindingRegistry, i: int, j: int)
    requires
        r.wf(),
        0 <= i < r.entries_spec().len(),
        0 <= j < r.entries_spec().len(),
        i != j,
    ensures
        r.entries_spec()[i].key_spec() != r.entries_spec()[j].key_spec(),
{
    assert(r.triggers()[i] == r.entries_spec()[i].key_spec());
    assert(r.triggers()[j] == r.entries_spec()[j].key_spec());
}

/// The nine built-in bindings, in their startup registration order.
pub open spec fn spec_standard_entries() -> Seq<AnyBinding> {
    seq![
        AnyBinding::Names(Names),
        AnyBinding::Json(Json),
        AnyBinding::Yaml(Yaml),
        AnyBinding::Describe(Describe),
        AnyBinding::Edit(Edit),
        AnyBinding::Logs(Logs),
        AnyBinding::Cordon(Cordon),
        AnyBinding::Uncordon(Uncordon),
        AnyBinding::Copy(crate::bindings::Copy),
    ]
}

impl BindingRegistry {
    /// A registry holding the nine built-in bindings, registered in startup
    /// order; their trigger keys are pairwise distinct.
    pub fn standard() -> (r: Self)
        ensures
            r.entries_spec() == spec_standard_entries(),
            r.wf(),
    {
        let mut r = Self::new();
        proof {
            reveal_strlit("ctrl-j");
            reveal_strlit("ctrl-y");
            reveal_strlit("ctrl-d");
            reveal_strlit("ctrl-e");
            reveal_strlit("ctrl-l");
            reveal_strlit("ctrl-k");
            reveal_strlit("ctrl-u");
            reveal_strlit("ctrl-space");
            assert("ctrl-j"@.len() == 6);
            assert("ctrl-y"@.len() == 6);
            assert("ctrl-d"@.len() == 6);
            assert("ctrl-e"@.len() == 6);
            assert("ctrl-l"@.len() == 6);
            assert("ctrl-k"@.len() == 6);
            assert("ctrl-u"@.len() == 6);
            assert("ctrl-space"@.len() == 10);
            assert("ctrl-j"@[5] == 'j');
            assert("ctrl-y"@[5] == 'y');
            assert("ctrl-d"@[5] == 'd');
            assert("ctrl-e"@[5] == 'e');
            assert("ctrl-l"@[5] == 'l');
            assert("ctrl-k"@[5] == 'k');
            assert("ctrl-u"@[5] == 'u');
        }
        let _ = r.register(AnyBinding::Names(Names));
        proof {
            assert(r.entries_spec() =~= seq![AnyBinding::Names(Names)]);
            assert(r.triggers() =~= seq![Seq::<char>::empty()]);
        }
        let _ = r.register(AnyBinding::Json(Json));
        proof {
            assert(r.entries_spec() =~= seq![AnyBinding::Names(Names), AnyBinding::Json(Json)]);
            assert(r.triggers() =~= seq![Seq::<char>::empty(), "ctrl-j"@]);
        }
        let _ = r.register(AnyBinding::Yaml(Yaml));
        proof {
            assert(r.entries_spec() =~= seq![
                AnyBinding::Names(Names),
                AnyBinding::Json(Json),
                AnyBinding::Yaml(Yaml),
            ]);
            assert(r.triggers() =~= seq![Seq::<char>::empty(), "ctrl-j"@, "ctrl-y"@]);
        }
        let _ = r.register(AnyBinding::Describe(Describe));
        proof {
            assert(r.entries_spec() =~= seq![
                AnyBinding::Names(Names),
                AnyBinding::Json(Json),
                AnyBinding::Yaml(Yaml),
                AnyBinding::Describe(Describe),
            ]);
            assert(r.triggers() =~= seq![Seq::<char>::empty(), "ctrl-j"@, "ctrl-y"@, "ctrl-d"@]);
        }
        let _ = r.register(AnyBinding::Edit(Edit));
        proof {
            assert(r.entries_spec() =~= seq![
                AnyBinding::Names(Names),
                AnyBinding::Json(Json),
                AnyBinding::Yaml(Yaml),
                AnyBinding::Describe(Describe),
                AnyBinding::Edit(Edit),
            ]);
            assert(r.triggers() =~= seq![
                Seq::<char>::empty(),
                "ctrl-j"@,
                "ctrl-y"@,
                "ctrl-d"@,
                "ctrl-e"@,
            ]);
        }
        let _ = r.register(AnyBinding::Logs(Logs));
        proof {
            assert(r.entries_spec() =~= seq![
                AnyBinding::Names(Names),
                AnyBinding::Json(Json),
                AnyBinding::Yaml(Yaml),
                AnyBinding::Describe(Describe),
                AnyBinding::Edit(Edit),
                AnyBinding::Logs(Logs),
            ]);
            assert(r.triggers() =~= seq![
                Seq::<char>::empty(),
                "ctrl-j"@,
                "ctrl-y"@,
                "ctrl-d"@,
                "ctrl-e"@,
                "ctrl-l"@,
            ]);
        }
        let _ = r.register(AnyBinding::Cordon(Cordon));
        proof {
            assert(r.entries_spec() =~= seq![
                AnyBinding::Names(Names),
                AnyBinding::Json(Json),
                AnyBinding::Yaml(Yaml),
                AnyBinding::Describe(Describe),
                AnyBinding::Edit(Edit),
                AnyBinding::Logs(Logs),
                AnyBinding::Cordon(Cordon),
            ]);
            assert(r.triggers() =~= seq![
                Seq::<char>::empty(),
                "ctrl-j"@,
                "ctrl-y"@,
                "ctrl-d"@,
                "ctrl-e"@,
                "ctrl-l"@,
                "ctrl-k"@,
            ]);
        }
        let _ = r.register(AnyBinding::Uncordon(Uncordon));
        proof {
            assert(r.entries_spec() =~= seq![
                AnyBinding::Names(Names),
                AnyBinding::Json(Json),
                AnyBinding::Yaml(Yaml),
                AnyBinding::Describe(Describe),
                AnyBinding::Edit(Edit),
                AnyBinding::Logs(Logs),
                AnyBinding::Cordon(Cordon),
                AnyBinding::Uncordon(Uncordon),
            ]);
            assert(r.triggers() =~= seq![
                Seq::<char>::empty(),
                "ctrl-j"@,
                "ctrl-y"@,
                "ctrl-d"@,
                "ctrl-e"@,
                "ctrl-l"@,
                "ctrl-k"@,
                "ctrl-u"@,
            ]);
        }
        let _ = r.register(AnyBinding::Copy(crate::bindings::Copy));
        proof {
            assert(r.entries_spec() =~= spec_standard_entries());
        }
        r
    }
}

/// The always-available preview line documenting the picker's own
/// toggle-preview control.
pub open spec fn spec_toggle_preview_line() -> Seq<char> {
    "\x1b[31mToggle Preview\t\x1b[33mctrl-p\x1b[0m"@
}

/// The preview lines of the bindings among `entries` that run for
/// `resource`, in registration order.
pub open spec fn spec_applicable_previews(entries: Seq<AnyBinding>, resource: Seq<char>) -> Seq<
    Seq<char>,
>
    decreases entries.len(),
{
    if entries.len() == 0 {
        Seq::empty()
    } else {
        let rest = spec_applicable_previews(entries.drop_first(), resource);
        if spec_runs_for(entries[0].accepts_spec(), resource) {
            seq![spec_preview_line(entries[0].description_spec(), entries[0].key_spec())] + rest
        } else {
            rest
        }
    }
}

/// The preview block for `resource`: the applicable bindings' preview lines
/// and the toggle-preview line, sorted lexicographically.
pub open spec fn spec_preview_lines(entries: Seq<AnyBinding>, resource: Seq<char>) -> Seq<
    Seq<char>,
> {
    spec_applicable_previews(entries, resource).push(spec_toggle_preview_line()).sort_by(lex_leq())
}

impl BindingRegistry {
    /// The preview block lines for `resource`: one line per applicable
    /// binding plus the always-available toggle-preview line, sorted
    /// lexicographically.
    pub fn preview_lines_for(&self, resource: &str) -> (r: Vec<String>)
        ensures
            r.deep_view() == spec_preview_lines(self.entries_spec(), resource@),
            sorted_by(r.deep_view(), lex_leq()),
            r.deep_view().contains(spec_toggle_preview_line()),
    {
        let ghost es = self.entries_spec();
        let n = self.entries.len();
        let mut lines: Vec<String> = Vec::new();
        let mut i: usize = 0;
        proof {
            assert(es.skip(0) =~= es);
            assert(lines.deep_view() =~= Seq::<Seq<char>>::empty());
            assert(lines.deep_view() + spec_applicable_previews(es, resource@)
                =~= spec_applicable_previews(es, resource@));
        }
        while i < n
            invariant
                n == self.entries@.len(),
                es == self.entries_spec(),
                i <= n,
                spec_applicable_previews(es, resource@) == lines.deep_view()
                    + spec_applicable_previews(es.skip(i as int), resource@),
            decreases n - i,
        {
            let e = &self.entries[i];
            let ghost pre = lines.deep_view();
            if e.runs_for(resource) {
                lines.push(e.preview());
            }
            proof {
                let t = es.skip(i as int);
                assert(t[0] == es[i as int]);
                assert(t.drop_first() =~= es.skip(i + 1));
                if spec_runs_for(es[i as int].accepts_spec(), resource@) {
                    assert(lines.deep_view() =~= pre.push(spec_preview_line(
                        es[i as int].description_spec(),
                        es[i as int].key_spec(),
                    )));
                    assert(lines.deep_view() + spec_applicable_previews(es.skip(i + 1), resource@)
                        =~= pre + spec_applicable_previews(t, resource@));
                } else {
                    assert(lines.deep_view() + spec_applicable_previews(es.skip(i + 1), resource@)
                        =~= pre + spec_applicable_previews(t, resource@));
                }
            }
            i = i + 1;
        }
        let ghost apl = spec_applicable_previews(es, resource@);
        proof {
            assert(es.skip(n as int) =~= Seq::<AnyBinding>::empty());
            assert(lines.deep_view() =~= apl);
        }
        lines.push(String::from_str("\x1b[31mToggle Preview\t\x1b[33mctrl-p\x1b[0m"));
        let ghost base = apl.push(spec_toggle_preview_line());
        proof {
            assert(lines.deep_view() =~= base);
        }
        let r = sort_strings(&lines);
        proof {
            lemma_lex_leq_total_ordering();
            base.lemma_sort_by_ensures(lex_leq());
            lemma_sorted_unique(r.deep_view(), base.sort_by(lex_leq()), lex_leq());
            assert(r.deep_view() =~= base.sort_by(lex_leq()));
            broadcast use vstd::seq_lib::group_to_multiset_ensures;

            assert(base[base.len() - 1] == spec_toggle_preview_line());
            assert(base.contains(spec_toggle_preview_line()));
            assert(r.deep_view().to_multiset().count(spec_toggle_preview_line()) > 0);
            assert(r.deep_view().contains(spec_toggle_preview_line()));
        }
        r
    }

    /// The rendered preview block for `resource`: the preview lines joined
    /// with line feeds and tab-aligned for display.
    pub fn preview_for(&self, resource: &str) -> (r: String)
        ensures
            r@ == tab_aligned(spec_join(spec_preview_lines(self.entries_spec(), resource@), "\n"@)),
    {
        let lines = self.preview_lines_for(resource);
        let joined = join(&lines, "\n");
        tab_align(joined.as_str())
    }
}

/// What elastic tab-stop alignment makes of a text: a pure function of the
/// characters alone.
pub uninterp spec fn tab_aligned(s: Seq<char>) -> Seq<char>;

/// Relies on `tabwriter::TabWriter` over a byte buffer (`write_all`, `flush`,
/// `into_inner`): elastic tab-stop alignment of the text, a deterministic
/// function of the input alone; writing to a buffer cannot fail, and empty
/// input gives empty output.
#[verifier::external_body]
fn tab_align(s: &str) -> (r: String)
    ensures
        r@ == tab_aligned(s@),
        s@.len() == 0 ==> r@.len() == 0,
{
    let mut tw = tabwriter::TabWriter::new(Vec::new());
    let _ = std::io::Write::write_all(&mut tw, s.as_bytes());
    let _ = std::io::Write::flush(&mut tw);
    match tw.into_inner() {
        Ok(buf) => match String::from_utf8(buf) {
            Ok(out) => out,
            Err(_) => String::new(),
        },
        Err(_) => String::new(),
    }
}

/// The greatest number of per-column bindings registered from one header:
/// matched to the count of function keys on a conventional keyboard.
pub const MAX_COLUMN_BINDINGS: usize = 19;

/// The number of per-column bindings a header of `cols` tokens yields: one
/// per column after the first identifier column, capped.
pub open spec fn spec_column_binding_count(cols: Seq<Seq<char>>) -> int {
    if cols.len() == 0 {
        0
    } else if cols.len() - 1 <= MAX_COLUMN_BINDINGS as int {
        cols.len() - 1
    } else {
        MAX_COLUMN_BINDINGS as int
    }
}

impl BindingRegistry {
    /// Registers the per-column bindings derived from the header tokens:
    /// column `i` (1-based, the identifier column excluded) gets the
    /// function-key trigger `f<i>`, up to the cap.  A column whose trigger is
    /// already taken is skipped; when every function-key trigger is free — as
    /// with the built-in registry — each column binding is registered, in
    /// column order.
    pub fn register_column_bindings(&mut self, header_columns: &Vec<String>)
        ensures
            old(self).wf() ==> final(self).wf(),
            final(self).entries_spec().len() >= old(self).entries_spec().len(),
            final(self).entries_spec().take(old(self).entries_spec().len() as int) == old(
                self,
            ).entries_spec(),
            (forall|q: int|
                1 <= q <= spec_column_binding_count(header_columns.deep_view())
                    ==> !old(self).spec_contains_trigger("f"@ + #[trigger] spec_dec(q as nat)))
                ==> ({
                let k = spec_column_binding_count(header_columns.deep_view());
                let old_n = old(self).entries_spec().len() as int;
                let es = final(self).entries_spec();
                &&& es.len() == old_n + k
                &&& forall|t: int|
                    0 <= t < k ==> ((#[trigger] es[old_n + t]) matches AnyBinding::Column(c)
                        && c.name_spec() == header_columns.deep_view()[t + 1] && c.index_spec()
                        == (t + 1) as nat)
            }),
    {
        let ghost old_es = self.entries_spec();
        let ghost old_ts = spec_triggers_of(old_es);
        let ghost old_wf = self.wf();
        let ghost hv = header_columns.deep_view();
        let ghost k = spec_column_binding_count(hv);
        proof {
            assert(old_ts == old(self).triggers());
        }
        let n = header_columns.len();
        let mut i: usize = 1;
        while i < n && i <= MAX_COLUMN_BINDINGS
            invariant
                n == header_columns@.len(),
                hv == header_columns.deep_view(),
                k == spec_column_binding_count(hv),
                old_ts == spec_triggers_of(old_es),
                1 <= i,
                i <= k + 1,
                old_wf ==> self.wf(),
                self.entries_spec().len() >= old_es.len(),
                self.entries_spec().take(old_es.len() as int) == old_es,
                (forall|q: int|
                    1 <= q <= k ==> !old_ts.contains("f"@ + #[trigger] spec_dec(q as nat))) ==> ({
                    let es = self.entries_spec();
                    &&& es.len() == old_es.len() + (i - 1)
                    &&& forall|t: int|
                        0 <= t < i - 1 ==> ((#[trigger] es[old_es.len() + t]) matches
                            AnyBinding::Column(c) && c.name_spec() == hv[t + 1] && c.index_spec()
                            == (t + 1) as nat)
                }),
            decreases n - i,
        {
            proof {
                assert(i <= k);
            }
            let name = header_columns[i].clone();
            let b = AnyBinding::Column(Column::new(name, i));
            let ghost pre = self.entries_spec();
            let ghost key = "f"@ + spec_dec(i as nat);
            proof {
                assert(b.key_spec() == key);
            }
            let added = self.register(b);
            proof {
                let old_n = old_es.len() as int;
                if forall|q: int| 1 <= q <= k ==> !old_ts.contains("f"@ + #[trigger] spec_dec(q as nat)) {
                    let pre_ts = spec_triggers_of(pre);
                    let qq: int = i as int;
                    assert(1 <= qq <= k);
                    assert(!old_ts.contains("f"@ + spec_dec(qq as nat)));
                    assert(spec_dec(qq as nat) == spec_dec(i as nat));
                    assert forall|x: int| 0 <= x < pre_ts.len() implies pre_ts[x] != key by {
                        if x < old_n {
                            assert(pre.take(old_n)[x] == pre[x]);
                            assert(pre[x] == old_es[x]);
                            assert(pre_ts[x] == pre[x].key_spec());
                            assert(old_ts[x] == old_es[x].key_spec());
                            if pre_ts[x] == key {
                                assert(old_ts[x] == key);
                                assert(old_ts.contains(key));
                            }
                        } else {
                            let t = x - old_n;
                            assert(0 <= t < i - 1);
                            assert((pre[old_es.len() + t] matches AnyBinding::Column(c)
                                && c.name_spec() == hv[t + 1] && c.index_spec() == (t + 1) as nat));
                            assert(pre[x] matches AnyBinding::Column(c) && c.index_spec() == (t
                                + 1) as nat);
                            if pre_ts[x] == key {
                                lemma_concat_cancel_prefix(
                                    "f"@,
                                    spec_dec((t + 1) as nat),
                                    spec_dec(i as nat),
                                );
                                lemma_dec_injective((t + 1) as nat, i as nat);
                            }
                        }
                    }
                    if pre_ts.contains(key) {
                        let x = choose|x: int| 0 <= x < pre_ts.len() && pre_ts[x] == key;
                        assert(pre_ts[x] != key);
                    }
                    assert(added);
                    assert(self.entries_spec() =~= pre.push(b));
                }
                if added {
                    assert(self.entries_spec().take(old_es.len() as int) =~= old_es);
                }
            }
            i = i + 1;
        }
        proof {
            if n == 0 {
                assert(k == 0);
            } else {
                assert(i >= n || i > MAX_COLUMN_BINDINGS);
                assert(k <= n - 1 && k <= MAX_COLUMN_BINDINGS as int);
            }
            assert(i == k + 1);
        }
    }
}

} // verus!
