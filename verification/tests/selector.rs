use kubesel::bindings::{ActionEffect, Binding, BindingContext, Cordon, Json, Logs, Names};
use kubesel::dispatch::{
    build_context, expect_keys, handle_output, handle_selection, ingest_listing, picker_prompt,
};
use kubesel::registry::{AnyBinding, BindingRegistry};

fn strings(words: &[&str]) -> Vec<String> {
    words.iter().map(|w| w.to_string()).collect()
}

fn pod_context(rows: &[&str]) -> BindingContext {
    build_context(&None, &"pod".to_string(), &strings(rows))
}

#[test]
fn names_action_joins_selected_identifiers() {
    let ctx = pod_context(&["a Running 1d", "b Pending 2d"]);
    match Names.run(&ctx) {
        ActionEffect::Output(s) => assert_eq!(s, "a\nb"),
        _ => panic!("Names must produce plain output"),
    }
}

#[test]
fn listing_dispatch_names_and_column_two() {
    let mut reg = BindingRegistry::standard();
    let out = ingest_listing(&mut reg, "NAME STATUS AGE\na Running 1d\nb Pending 2d\n")
        .expect("listing with lines must parse");
    assert_eq!(out.header, "NAME STATUS AGE");
    assert_eq!(out.items, strings(&["a Running 1d", "b Pending 2d"]));

    let ns = None;
    let resource = "pod".to_string();
    match handle_output(&reg, &ns, &resource, &out.items, "") {
        Some(ActionEffect::Output(s)) => assert_eq!(s, "a\nb"),
        _ => panic!("default accept must yield the names"),
    }
    // the second header column (STATUS) is bound to the first function key
    match handle_output(&reg, &ns, &resource, &out.items, "f1") {
        Some(ActionEffect::Output(s)) => assert_eq!(s, "Running\nPending"),
        _ => panic!("the synthesized column action must yield the column values"),
    }
}

#[test]
fn column_binding_keys_and_descriptions() {
    let mut reg = BindingRegistry::standard();
    let _ = ingest_listing(&mut reg, "NAME STATUS AGE\n").unwrap();
    let keys = reg.trigger_keys();
    assert!(keys.contains(&"f1".to_string()));
    assert!(keys.contains(&"f2".to_string()));
    assert!(!keys.contains(&"f3".to_string()));
    let b = reg.lookup("f2").expect("f2 must be bound");
    assert_eq!(b.description(), "2:AGE");
}

#[test]
fn column_bindings_capped_at_nineteen() {
    let mut reg = BindingRegistry::new();
    let mut header = String::from("NAME");
    for i in 1..30 {
        header.push_str(&format!(" C{}", i));
    }
    header.push('\n');
    let _ = ingest_listing(&mut reg, &header).unwrap();
    assert!(reg.lookup("f19").is_some());
    assert!(reg.lookup("f20").is_none());
    assert_eq!(reg.trigger_keys().len(), 19);
}

#[test]
fn cordon_against_pod_yields_mismatch_message_and_no_call() {
    let reg = BindingRegistry::standard();
    let rows = strings(&["a Running 1d"]);
    match handle_output(&reg, &None, &"pod".to_string(), &rows, "ctrl-k") {
        Some(ActionEffect::Output(s)) => {
            assert_eq!(s, "Cordon does not work for resource type pod")
        },
        _ => panic!("a mismatched binding must only produce the message"),
    }
}

#[test]
fn cordon_against_node_invokes_command() {
    let reg = BindingRegistry::standard();
    let rows = strings(&["worker-1 Ready 3d"]);
    match handle_output(&reg, &None, &"node".to_string(), &rows, "ctrl-k") {
        Some(ActionEffect::Capture(args)) => {
            assert_eq!(args, strings(&["cordon", "worker-1"]))
        },
        _ => panic!("cordon on a node must invoke the external command"),
    }
}

#[test]
fn logs_with_two_selected_yields_cardinality_message() {
    let reg = BindingRegistry::standard();
    let rows = strings(&["a Running 1d", "b Pending 2d"]);
    match handle_output(&reg, &None, &"pod".to_string(), &rows, "ctrl-l") {
        Some(ActionEffect::Output(s)) => {
            assert_eq!(s, "Cannot get logs of more than one pod at a time")
        },
        _ => panic!("logs over more than one pod must only produce the message"),
    }
}

#[test]
fn logs_with_one_selected_follows_stream() {
    let reg = BindingRegistry::standard();
    let rows = strings(&["a Running 1d"]);
    match handle_output(&reg, &None, &"pod".to_string(), &rows, "ctrl-l") {
        Some(ActionEffect::Follow(args)) => {
            assert_eq!(args, strings(&["logs", "--follow", "--all-containers", "a"]))
        },
        _ => panic!("logs of a single pod must stream the external command"),
    }
}

#[test]
fn json_action_builds_get_command_with_namespace() {
    let ctx = build_context(
        &Some("kube-system".to_string()),
        &"pod".to_string(),
        &strings(&["a Running 1d", "b Pending 2d"]),
    );
    match Json.run(&ctx) {
        ActionEffect::Capture(args) => assert_eq!(
            args,
            strings(&[
                "get",
                "pod",
                "--namespace",
                "kube-system",
                "--output",
                "json",
                "a",
                "b",
            ])
        ),
        _ => panic!("the structured dump must invoke the external command"),
    }
}

#[test]
fn edit_action_passes_terminal_through() {
    let reg = BindingRegistry::standard();
    let rows = strings(&["a Running 1d"]);
    match handle_output(&reg, &None, &"pod".to_string(), &rows, "ctrl-e") {
        Some(ActionEffect::PassThrough(args)) => {
            assert_eq!(args, strings(&["edit", "pod", "a"]))
        },
        _ => panic!("edit must hand output to the terminal"),
    }
}

#[test]
fn copy_action_fills_clipboard_with_names() {
    let ctx = pod_context(&["a Running 1d", "b Pending 2d"]);
    match kubesel::bindings::Copy.run(&ctx) {
        ActionEffect::SetClipboard(s) => assert_eq!(s, "a\nb"),
        _ => panic!("copy must only fill the clipboard"),
    }
}

#[test]
fn duplicate_trigger_registration_fails_and_changes_nothing() {
    let mut reg = BindingRegistry::new();
    assert!(reg.register(AnyBinding::Json(Json)));
    assert!(!reg.register(AnyBinding::Json(Json)));
    assert_eq!(reg.trigger_keys(), strings(&["ctrl-j"]));
    assert!(reg.register(AnyBinding::Column(
        kubesel::bindings::Column::new("STATUS".to_string(), 1)
    )));
    assert_eq!(reg.trigger_keys(), strings(&["ctrl-j", "f1"]));
}

#[test]
fn standard_registry_has_nine_distinct_triggers() {
    let reg = BindingRegistry::standard();
    let mut keys = reg.trigger_keys();
    assert_eq!(keys.len(), 9);
    keys.sort();
    keys.dedup();
    assert_eq!(keys.len(), 9);
    assert!(reg.lookup("").is_some());
    assert!(reg.lookup("ctrl-space").is_some());
    assert!(reg.lookup("ctrl-x").is_none());
}

#[test]
fn applicability_follows_accepted_resource_types() {
    assert!(Names.runs_for("pod"));
    assert!(Names.runs_for("anything-at-all"));
    assert!(Cordon.runs_for("node"));
    assert!(Cordon.runs_for("no"));
    assert!(!Cordon.runs_for("pod"));
    assert!(Logs.runs_for("po"));
    assert!(!Logs.runs_for("node"));
}

#[test]
fn accepted_alias_helpers() {
    assert_eq!(BindingContext::accepts_pods(), strings(&["pods", "pod", "po"]));
    assert_eq!(BindingContext::accepts_nodes(), strings(&["nodes", "node", "no"]));
    assert_eq!(
        BindingContext::accepts_service_accounts(),
        strings(&["serviceaccounts", "sa"])
    );
}

#[test]
fn preview_lines_sorted_and_hold_toggle_line() {
    let toggle = "\u{1b}[31mToggle Preview\t\u{1b}[33mctrl-p\u{1b}[0m";
    let reg = BindingRegistry::standard();
    let lines = reg.preview_lines_for("pod");
    assert!(lines.iter().any(|l| l == toggle));
    for w in lines.windows(2) {
        assert!(w[0] <= w[1]);
    }
    // cordon and uncordon do not run for pods, so their lines are absent
    assert!(!lines.iter().any(|l| l.contains("Cordon")));
    // the toggle line is present whatever is registered
    let empty = BindingRegistry::new();
    assert_eq!(empty.preview_lines_for("pod"), strings(&[toggle]));
}

#[test]
fn preview_line_shows_enter_for_default_accept() {
    assert_eq!(Names.preview(), "\u{1b}[31mNames\t\u{1b}[33menter\u{1b}[0m");
    assert_eq!(Json.preview(), "\u{1b}[31mJson\t\u{1b}[33mctrl-j\u{1b}[0m");
}

#[test]
fn rendered_preview_is_tab_aligned() {
    let reg = BindingRegistry::standard();
    let block = reg.preview_for("pod");
    assert!(block.contains("Toggle Preview"));
    // the tab stops of the raw lines were replaced by alignment padding
    assert!(!block.contains('\t'));
    assert_ne!(block, reg.preview_lines_for("pod").join("\n"));
}

#[test]
fn context_round_trip_counts_and_first_tokens() {
    let rows = ["a Running 1d", "b Pending 2d", "   ", "lone"];
    let ctx = pod_context(&rows);
    assert_eq!(ctx.names.len(), rows.len());
    assert_eq!(ctx.columns.len(), rows.len());
    for i in 0..rows.len() {
        if !ctx.columns[i].is_empty() {
            assert_eq!(ctx.columns[i][0], ctx.names[i]);
        } else {
            assert_eq!(ctx.names[i], "");
        }
    }
    assert_eq!(ctx.names, strings(&["a", "b", "", "lone"]));
    assert_eq!(ctx.resource, "pod");
    assert_eq!(ctx.namespace, None);
}

#[test]
fn aborting_the_picker_produces_nothing() {
    let reg = BindingRegistry::standard();
    let rows = strings(&["a Running 1d"]);
    let r = handle_selection(&reg, &None, &"pod".to_string(), &rows, None);
    assert!(r.is_none());
}

#[test]
fn unknown_trigger_produces_nothing() {
    let reg = BindingRegistry::standard();
    let rows = strings(&["a Running 1d"]);
    let r = handle_output(&reg, &None, &"pod".to_string(), &rows, "ctrl-zz");
    assert!(r.is_none());
}

#[test]
fn empty_listing_yields_nothing_and_leaves_registry_alone() {
    let mut reg = BindingRegistry::standard();
    assert!(ingest_listing(&mut reg, "").is_none());
    assert_eq!(reg.trigger_keys().len(), 9);
}

#[test]
fn header_only_listing_yields_no_items() {
    let mut reg = BindingRegistry::standard();
    let out = ingest_listing(&mut reg, "NAME AGE\n").unwrap();
    assert_eq!(out.header, "NAME AGE");
    assert!(out.items.is_empty());
}

#[test]
fn prompt_and_expect_keys() {
    assert_eq!(picker_prompt(&"pod".to_string()), "pod \u{2388}  ");
    let reg = BindingRegistry::standard();
    let keys = expect_keys(&reg);
    assert_eq!(
        keys,
        ",ctrl-j,ctrl-y,ctrl-d,ctrl-e,ctrl-l,ctrl-k,ctrl-u,ctrl-space"
    );
}
