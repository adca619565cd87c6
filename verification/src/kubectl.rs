//! The shape of the cluster command line and of its listing output.
//!
//! A command is modelled as the argument vector handed to the external
//! `kubectl` binary; building that vector is verified here, while spawning
//! the process is left to the unverified shell.

use vstd::prelude::*;

verus! {

/// The leading arguments of a cluster command: the verb, then the resource
/// type when one is named, then the namespace flag when a namespace is set.
pub open spec fn spec_base_cmd(
    namespace: Option<Seq<char>>,
    command: Seq<char>,
    resource: Option<Seq<char>>,
) -> Seq<Seq<char>> {
    let with_res = match resource {
        Some(r) => seq![command, r],
        None => seq![command],
    };
    match namespace {
        Some(n) => with_res + seq!["--namespace"@, n],
        None => with_res,
    }
}

/// Builds the base argument vector for the cluster command:
/// `<command> <resource>? (--namespace <namespace>)?`.
pub fn kubectl_base_cmd(
    namespace: Option<&String>,
    command: &str,
    resource: Option<&String>,
) -> (r: Vec<String>)
    ensures
        r.deep_view() == spec_base_cmd(namespace.deep_view(), command@, resource.deep_view()),
{
    let mut r: Vec<String> = Vec::new();
    r.push(String::from_str(command));
    match resource {
        Some(res) => {
            r.push(res.clone());
            proof {
                assert(r.deep_view() =~= seq![command@, res@]);
            }
        },
        None => {
            proof {
                assert(r.deep_view() =~= seq![command@]);
            }
        },
    }
    let ghost with_res = r.deep_view();
    match namespace {
        Some(ns) => {
            r.push(String::from_str("--namespace"));
            r.push(ns.clone());
            proof {
                assert(r.deep_view() =~= with_res + seq!["--namespace"@, ns@]);
            }
        },
        None => {},
    }
    r
}

/// One run of the listing command: the header line and the data rows, in
/// listing order.
pub struct KubectlOutput {
    pub header: String,
    pub items: Vec<String>,
}

} // verus!
