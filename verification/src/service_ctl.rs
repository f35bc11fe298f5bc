//! Starting, stopping and looking at the service through its manager.

use vstd::prelude::*;

verus! {

/// The views of a list of arguments.
pub open spec fn arg_views(args: Seq<String>) -> Seq<Seq<char>> {
    Seq::new(args.len(), |i: int| args[i]@)
}

/// The arguments that start, stop or restart a unit.
pub fn control_args(action: &str, unit: &str) -> (args: Vec<String>)
    ensures
        arg_views(args@) == seq![action@, unit@],
{
    let mut args: Vec<String> = Vec::new();
    args.push(action.to_string());
    args.push(unit.to_string());
    assert(arg_views(args@) =~= seq![action@, unit@]);
    args
}

/// The arguments that show the status of a unit.
pub fn status_args(unit: &str) -> (args: Vec<String>)
    ensures
        arg_views(args@) == seq!["status"@, "--no-pager"@, "-l"@, unit@],
{
    let mut args: Vec<String> = Vec::new();
    args.push("status".to_string());
    args.push("--no-pager".to_string());
    args.push("-l".to_string());
    args.push(unit.to_string());
    assert(arg_views(args@) =~= seq!["status"@, "--no-pager"@, "-l"@, unit@]);
    args
}

/// What is said where an action did not succeed.
pub fn failure_message(action: &str, unit: &str, status: &str) -> (text: String)
    ensures
        text@ == "systemctl "@ + action@ + seq![' '] + unit@ + " failed: "@ + status@,
{
    let mut text = "systemctl ".to_string();
    text.append(action);
    text.push(' ');
    text.append(unit);
    text.append(" failed: ");
    text.append(status);
    assert(text@ =~= "systemctl "@ + action@ + seq![' '] + unit@ + " failed: "@ + status@);
    text
}

} // verus!
