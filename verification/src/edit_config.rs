//! Editing the settings file: which editor to start, and what to say then.

use vstd::prelude::*;

use crate::text::{decimal, push_decimal};

verus! {

/// The kind of system that the program runs on.
#[derive(Debug, Clone, Copy, PartialEq, Eq, Structural)]
pub enum Platform {
    Unix,
    Windows,
    Other,
}

/// The editors that a system has of its own.
pub open spec fn builtin_editors(platform: Platform) -> Seq<Seq<char>> {
    match platform {
        Platform::Unix => seq!["nano"@, "vi"@],
        Platform::Windows => seq!["notepad"@],
        Platform::Other => Seq::empty(),
    }
}

/// A choice of the user's, if there is one.
pub open spec fn chosen(editor: Option<String>) -> Seq<Seq<char>> {
    match editor {
        Some(e) => if e@.len() > 0 {
            seq![e@]
        } else {
            Seq::empty()
        },
        None => Seq::empty(),
    }
}

/// The views of a list of names.
pub open spec fn name_views(names: Seq<String>) -> Seq<Seq<char>> {
    Seq::new(names.len(), |i: int| names[i]@)
}

fn push_name(names: &mut Vec<String>, name: String)
    ensures
        name_views(final(names)@) == name_views(old(names)@) + seq![name@],
{
    names.push(name);
    assert(name_views(names@) =~= name_views(old(names)@) + seq![name@]);
}

fn push_chosen(names: &mut Vec<String>, editor: Option<String>)
    ensures
        name_views(final(names)@) == name_views(old(names)@) + chosen(editor),
{
    if let Some(name) = editor {
        if !is_empty(name.as_str()) {
            push_name(names, name);
            return;
        }
    }
    assert(name_views(names@) =~= name_views(old(names)@) + Seq::<Seq<char>>::empty());
}

fn is_empty(s: &str) -> (empty: bool)
    ensures
        empty == (s@.len() == 0),
{
    for c in it: s.chars()
        invariant
            it.seq() == s@,
            it.index() == 0,
    {
        return false;
    }
    true
}

/// The editors to try, in order: the user's two choices, then those of the
/// system.
pub fn editor_candidates(
    editor: Option<String>,
    visual: Option<String>,
    platform: Platform,
) -> (names: Vec<String>)
    ensures
        name_views(names@) == chosen(editor) + chosen(visual) + builtin_editors(platform),
{
    let mut names: Vec<String> = Vec::new();
    assert(name_views(names@) =~= Seq::empty());
    push_chosen(&mut names, editor);
    push_chosen(&mut names, visual);
    match platform {
        Platform::Unix => {
            push_name(&mut names, "nano".to_string());
            push_name(&mut names, "vi".to_string());
        },
        Platform::Windows => {
            push_name(&mut names, "notepad".to_string());
        },
        Platform::Other => {},
    }
    assert(name_views(names@) =~= chosen(editor) + chosen(visual) + builtin_editors(platform));
    names
}

/// What came of starting an editor.
#[derive(Debug, Clone, Copy, PartialEq, Eq, Structural)]
pub enum LaunchOutcome {
    /// It has run.
    Ran,
    /// There is no such program.
    NotFound,
    /// It could not be started for another reason.
    Failed,
}

/// What to do next to have a file edited.
#[derive(Debug, Clone, Copy, PartialEq, Eq, Structural)]
pub enum EditorStep {
    /// Start the candidate with this number.
    Launch(usize),
    /// An editor has run.
    Ran,
    /// An editor could not be started, although it is there.
    Failed,
    /// None of the candidates is there.
    NoneFound,
}

/// The step after `tried` of `count` candidates, of which the last one came to
/// `outcome`.
pub open spec fn editor_step(count: nat, tried: nat, outcome: LaunchOutcome) -> EditorStep {
    match outcome {
        LaunchOutcome::Ran => EditorStep::Ran,
        LaunchOutcome::Failed => EditorStep::Failed,
        LaunchOutcome::NotFound => if tried < count {
            EditorStep::Launch(tried as usize)
        } else {
            EditorStep::NoneFound
        },
    }
}

/// Goes through the candidates in order, past those that are not there. Before
/// the first one, `tried` is zero and `outcome` is `NotFound`.
pub fn next_editor(count: usize, tried: usize, outcome: LaunchOutcome) -> (step: EditorStep)
    ensures
        step == editor_step(count as nat, tried as nat, outcome),
{
    match outcome {
        LaunchOutcome::Ran => EditorStep::Ran,
        LaunchOutcome::Failed => EditorStep::Failed,
        LaunchOutcome::NotFound => if tried < count {
            EditorStep::Launch(tried)
        } else {
            EditorStep::NoneFound
        },
    }
}

/// What trying the candidates comes to from the one at `i` on, where each has
/// a fate.
pub open spec fn editor_result(fates: Seq<LaunchOutcome>, i: nat) -> EditorStep
    decreases fates.len() - i,
{
    if i >= fates.len() {
        EditorStep::NoneFound
    } else {
        match editor_step(fates.len(), i + 1, fates[i as int]) {
            EditorStep::Launch(next) => editor_result(fates, i + 1),
            step => step,
        }
    }
}

/// Only a candidate that is not there is passed over: the first one that is
/// there settles it, also where it cannot be started.
pub proof fn failures_are_not_masked(fates: Seq<LaunchOutcome>, i: nat, k: nat)
    requires
        i <= k < fates.len(),
        fates[k as int] != LaunchOutcome::NotFound,
        forall|j: int| i <= j < k ==> #[trigger] fates[j] == LaunchOutcome::NotFound,
    ensures
        editor_result(fates, i) == if fates[k as int] == LaunchOutcome::Ran {
            EditorStep::Ran
        } else {
            EditorStep::Failed
        },
    decreases k - i,
{
    if i < k {
        assert(fates[i as int] == LaunchOutcome::NotFound);
        failures_are_not_masked(fates, i + 1, k);
    }
}

/// Names with a comma and a space between them.
pub open spec fn joined_names(names: Seq<Seq<char>>) -> Seq<char>
    decreases names.len(),
{
    if names.len() == 0 {
        Seq::empty()
    } else if names.len() == 1 {
        names[0]
    } else {
        joined_names(names.drop_last()) + ", "@ + names.last()
    }
}

/// What is said where no editor is there.
pub fn no_editor_message(tried: &Vec<String>) -> (text: String)
    ensures
        text@ == "error: no editor found; set $EDITOR (tried: "@ + joined_names(
            name_views(tried@),
        ) + seq![')'],
{
    let mut text = "error: no editor found; set $EDITOR (tried: ".to_string();
    let ghost head = text@;
    let ghost all = name_views(tried@);
    let mut i: usize = 0;
    assert(text@ =~= head + joined_names(all.take(0)));
    while i < tried.len()
        invariant
            i <= tried@.len(),
            all == name_views(tried@),
            text@ == head + joined_names(all.take(i as int)),
        decreases tried@.len() - i,
    {
        assert(all.take(i + 1).drop_last() =~= all.take(i as int));
        if i > 0 {
            text.append(", ");
        }
        text.append(tried[i].as_str());
        i = i + 1;
        assert(text@ =~= head + joined_names(all.take(i as int)));
    }
    assert(all.take(i as int) =~= all);
    text.push(')');
    assert(text@ =~= head + joined_names(all) + seq![')']);
    text
}

/// What is said of a file that is in order.
pub fn config_ok_message(redirects: usize) -> (text: String)
    ensures
        text@ == "config OK ("@ + decimal(redirects as nat) + " redirect(s))"@,
{
    let mut text = "config OK (".to_string();
    push_decimal(&mut text, redirects as u64);
    text.append(" redirect(s))");
    text
}

/// The user's own choices come first, in order, where they are not empty; then
/// what the system has.
pub proof fn choices_come_first(editor: Option<String>, visual: Option<String>, platform: Platform)
    ensures
        ({
            let names = chosen(editor) + chosen(visual) + builtin_editors(platform);
            &&& editor matches Some(e) ==> e@.len() > 0 ==> names[0] == e@
            &&& (editor is None || editor->0@.len() == 0) ==> (visual matches Some(v) ==> v@.len()
                > 0 ==> names[0] == v@)
            &&& editor matches Some(e) ==> visual matches Some(v) ==> e@.len() > 0 && v@.len() > 0
                ==> names[1] == v@
            &&& (editor is None || editor->0@.len() == 0) && (visual is None || visual->0@.len()
                == 0) ==> names == builtin_editors(platform)
        }),
        builtin_editors(Platform::Unix) == seq!["nano"@, "vi"@],
        builtin_editors(Platform::Windows) == seq!["notepad"@],
        builtin_editors(Platform::Other) == Seq::<Seq<char>>::empty(),
{
    let names = chosen(editor) + chosen(visual) + builtin_editors(platform);
    if (editor is None || editor->0@.len() == 0) && (visual is None || visual->0@.len() == 0) {
        assert(names =~= builtin_editors(platform));
    }
}

/// Where no candidate is there, all of them have been tried.
pub proof fn every_candidate_is_tried(fates: Seq<LaunchOutcome>, i: nat)
    requires
        i <= fates.len(),
        fates.len() <= usize::MAX,
        forall|j: int| i <= j < fates.len() ==> #[trigger] fates[j] == LaunchOutcome::NotFound,
    ensures
        editor_result(fates, i) == EditorStep::NoneFound,
    decreases fates.len() - i,
{
    if i < fates.len() {
        assert(fates[i as int] == LaunchOutcome::NotFound);
        every_candidate_is_tried(fates, i + 1);
    }
}

/// The candidates are started in order, from the first one on, each only after
/// the one before it was not there.
pub proof fn candidates_are_started_in_order(count: nat, tried: nat, outcome: LaunchOutcome)
    requires
        count <= usize::MAX,
    ensures
        editor_step(count, tried, outcome) matches EditorStep::Launch(n) ==> n == tried && tried
            < count && outcome == LaunchOutcome::NotFound,
        tried < count ==> editor_step(count, tried, LaunchOutcome::NotFound) == EditorStep::Launch(
            tried as usize,
        ),
{
}

/// Each further name stands behind a comma.
pub proof fn names_are_listed(names: Seq<Seq<char>>, next: Seq<char>)
    ensures
        joined_names(seq![next]) == next,
        names.len() > 0 ==> joined_names(names.push(next)) == joined_names(names) + ", "@ + next,
{
    assert(names.push(next).drop_last() =~= names);
}

} // verus!
