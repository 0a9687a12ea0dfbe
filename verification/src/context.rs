//! Which directory the reader starts in, from the plugin's environment.
//! Herdr hands the plugin a JSON description of its context; the string
//! values the reader looks at are read with serde_json.

use vstd::prelude::*;
use crate::text::{chars_of, opt_text, string_of, text_of};

verus! {

/// The string that the JSON pointer `pointer` selects in the JSON
/// document `text`, when `text` parses and the selected value is a string.
pub uninterp spec fn json_string_at(text: Seq<char>, pointer: Seq<char>) -> Option<Seq<char>>;

/// Trusted: parses `text` with `serde_json::from_str::<serde_json::Value>`
/// and looks `pointer` up with `Value::pointer`. A parse error, a missing
/// value and a value that is not a string all give `None`. The contract
/// names the result; what it is for given JSON is not stated.
#[verifier::external_body]
fn json_string_field(text: &str, pointer: &str) -> (r: Option<String>)
    ensures
        r matches Some(s) ==> json_string_at(text@, pointer@) == Some(s@),
        r is None ==> json_string_at(text@, pointer@) is None,
{
    match serde_json::from_str::<serde_json::Value>(text) {
        Ok(value) => match value.pointer(pointer) {
            Some(serde_json::Value::String(s)) => Some(s.clone()),
            _ => None,
        },
        Err(_) => None,
    }
}

/// The pointer to the working directory of the focused pane.
pub open spec fn focused_pane_pointer() -> Seq<char> {
    "/focused_pane_cwd"@
}

/// The pointer to the workspace's working directory.
pub open spec fn workspace_pointer() -> Seq<char> {
    "/workspace_cwd"@
}

/// The pointer to the checkout of the workspace's worktree.
pub open spec fn checkout_pointer() -> Seq<char> {
    "/worktree/checkout_path"@
}

/// The values that are present, in order.
pub open spec fn present(values: Seq<Option<Seq<char>>>) -> Seq<Seq<char>>
    decreases values.len(),
{
    if values.len() == 0 {
        seq![]
    } else {
        let rest = present(values.drop_last());
        match values.last() {
            Some(v) => rest.push(v),
            None => rest,
        }
    }
}

fn push_present(out: &mut Vec<String>, value: Option<String>, Ghost(done): Ghost<Seq<Option<Seq<char>>>>)
    requires
        old(out)@.len() == present(done).len(),
        forall|i: int| 0 <= i < old(out)@.len() ==> #[trigger] old(out)@[i]@ == present(done)[i],
    ensures
        ({
            let next = done.push(opt_text(value));
            &&& final(out)@.len() == present(next).len()
            &&& forall|i: int| 0 <= i < final(out)@.len() ==> #[trigger] final(out)@[i]@ == present(next)[i]
        }),
{
    let ghost next = done.push(opt_text(value));
    assert(next.drop_last() =~= done);
    if let Some(v) = value {
        out.push(v);
    }
}

/// The directories to try, in order, as the reader's starting point: the
/// explicit root, then the focused pane's directory, the workspace's
/// directory and the worktree checkout named in the plugin context. The
/// first that is a directory wins.
pub open spec fn start_candidates(
    root: Option<Seq<char>>,
    focused: Option<Seq<char>>,
    workspace: Option<Seq<char>>,
    checkout: Option<Seq<char>>,
) -> Seq<Seq<char>> {
    present(seq![root, focused, workspace, checkout])
}

/// Orders the candidate starting directories from the values found.
pub fn start_directory_candidates(
    root: Option<String>,
    focused: Option<String>,
    workspace: Option<String>,
    checkout: Option<String>,
) -> (r: Vec<String>)
    ensures
        ({
            let want = start_candidates(
                opt_text(root),
                opt_text(focused),
                opt_text(workspace),
                opt_text(checkout),
            );
            &&& r@.len() == want.len()
            &&& forall|i: int| 0 <= i < r@.len() ==> #[trigger] r@[i]@ == want[i]
        }),
{
    let ghost v0 = opt_text(root);
    let ghost v1 = opt_text(focused);
    let ghost v2 = opt_text(workspace);
    let ghost v3 = opt_text(checkout);
    let mut out: Vec<String> = Vec::new();
    assert(present(Seq::<Option<Seq<char>>>::empty()) =~= Seq::<Seq<char>>::empty());
    push_present(&mut out, root, Ghost(Seq::empty()));
    assert(Seq::<Option<Seq<char>>>::empty().push(v0) =~= seq![v0]);
    let ghost s1 = seq![v0];
    push_present(&mut out, focused, Ghost(s1));
    assert(seq![v0].push(v1) =~= seq![v0, v1]);
    let ghost s2 = seq![v0, v1];
    push_present(&mut out, workspace, Ghost(s2));
    assert(seq![v0, v1].push(v2) =~= seq![v0, v1, v2]);
    let ghost s3 = seq![v0, v1, v2];
    push_present(&mut out, checkout, Ghost(s3));
    assert(seq![v0, v1, v2].push(v3) =~= seq![v0, v1, v2, v3]);
    out
}

/// The candidate starting directories: the explicit root directory, then
/// those that the plugin-context JSON names, when there is one.
pub fn directory_candidates(root: Option<&str>, plugin_context: Option<&str>) -> (r: Vec<String>)
    ensures
        ({
            let want = match plugin_context {
                Some(json) => start_candidates(
                    text_of(root),
                    json_string_at(json@, focused_pane_pointer()),
                    json_string_at(json@, workspace_pointer()),
                    json_string_at(json@, checkout_pointer()),
                ),
                None => start_candidates(
                    text_of(root),
                    None,
                    None,
                    None,
                ),
            };
            &&& r@.len() == want.len()
            &&& forall|i: int| 0 <= i < r@.len() ==> #[trigger] r@[i]@ == want[i]
        }),
{
    let root = match root {
        Some(v) => Some(string_of(&chars_of(v))),
        None => None,
    };
    match plugin_context {
        Some(json) => {
            let focused = json_string_field(json, "/focused_pane_cwd");
            let workspace = json_string_field(json, "/workspace_cwd");
            let checkout = json_string_field(json, "/worktree/checkout_path");
            start_directory_candidates(root, focused, workspace, checkout)
        },
        None => start_directory_candidates(root, None, None, None),
    }
}

} // verus!
