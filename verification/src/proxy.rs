//! The TCP proxy: which target a client is connected to, and what happens
//! when there is none.

use std::path::PathBuf;

use vstd::prelude::*;

use crate::net::{AddrView, SocketAddr};
use crate::plugin::{FailureAction, FailureContext};
use crate::shaping::ShapingConfig;
use crate::time::Duration;

verus! {

/// The path of a file.
#[verifier::external_type_specification]
#[verifier::external_body]
pub struct ExPathBuf(std::path::PathBuf);

/// What a TCP redirect is made of.
#[derive(Debug, Clone)]
pub struct ProxyConfig {
    pub name: String,
    pub listen_addr: SocketAddr,
    pub targets: Vec<SocketAddr>,
    pub connect_timeout: Duration,
    pub shaping: Option<ShapingConfig>,
    pub worker_executable: Option<PathBuf>,
}

impl ProxyConfig {
    pub fn new(
        name: String,
        listen_addr: SocketAddr,
        targets: Vec<SocketAddr>,
        connect_timeout: Duration,
        shaping: Option<ShapingConfig>,
    ) -> (config: Self)
        ensures
            config == (ProxyConfig {
                name,
                listen_addr,
                targets,
                connect_timeout,
                shaping,
                worker_executable: None,
            }),
    {
        ProxyConfig {
            name,
            listen_addr,
            targets,
            connect_timeout,
            shaping,
            worker_executable: None,
        }
    }

    /// Sets the program to start as a worker.
    pub fn with_worker_executable(self, path: PathBuf) -> (config: Self)
        ensures
            config == (ProxyConfig { worker_executable: Some(path), ..self }),
    {
        ProxyConfig { worker_executable: Some(path), ..self }
    }
}

/// Why a TCP redirect cannot run.
#[derive(Debug, Clone, Copy, PartialEq, Eq, Structural)]
pub enum ProxyConfigError {
    NoTargets,
}

impl ProxyConfigError {
    pub fn message(&self) -> (text: &'static str)
        ensures
            text@ == "TCP proxy requires at least one target"@,
    {
        "TCP proxy requires at least one target"
    }
}

/// A redirect needs at least one target.
pub fn validate_config(config: &ProxyConfig) -> (result: Result<(), ProxyConfigError>)
    ensures
        result == if config.targets@.len() == 0 {
            Err::<(), ProxyConfigError>(ProxyConfigError::NoTargets)
        } else {
            Ok::<(), ProxyConfigError>(())
        },
{
    if config.targets.len() == 0 {
        return Err(ProxyConfigError::NoTargets);
    }
    Ok(())
}

// ---------------------------------------------------------------------
// Connecting to a target
// ---------------------------------------------------------------------

/// What came of an attempt to connect.
#[derive(Debug)]
pub enum ConnectOutcome {
    Connected,
    Failed(String),
    TimedOut,
}

/// The error of an attempt that did not succeed.
pub open spec fn connect_error(outcome: ConnectOutcome) -> Seq<char> {
    match outcome {
        ConnectOutcome::Failed(error) => error@,
        _ => "connection timed out"@,
    }
}

/// What to do next to connect a client.
pub enum ConnectStep {
    /// Try this target.
    Try(SocketAddr),
    /// This target is connected.
    Connected(SocketAddr),
    /// No target could be connected. This was the last one, and its error.
    AllFailed(SocketAddr, String),
    /// There is nothing to try.
    NoTargets,
}

/// What such a step is.
pub enum ConnectStepView {
    Try(AddrView),
    Connected(AddrView),
    AllFailed(AddrView, Seq<char>),
    NoTargets,
}

impl View for ConnectStep {
    type V = ConnectStepView;

    open spec fn view(&self) -> ConnectStepView {
        match self {
            ConnectStep::Try(target) => ConnectStepView::Try(target@),
            ConnectStep::Connected(target) => ConnectStepView::Connected(target@),
            ConnectStep::AllFailed(target, error) => ConnectStepView::AllFailed(target@, error@),
            ConnectStep::NoTargets => ConnectStepView::NoTargets,
        }
    }
}

/// The first step.
pub open spec fn connect_start(targets: Seq<SocketAddr>) -> ConnectStepView {
    if targets.len() == 0 {
        ConnectStepView::NoTargets
    } else {
        ConnectStepView::Try(targets[0]@)
    }
}

/// The step after `tried` targets, of which the last one came to `outcome`.
pub open spec fn connect_next(
    targets: Seq<SocketAddr>,
    tried: int,
    outcome: ConnectOutcome,
) -> ConnectStepView {
    if outcome is Connected {
        ConnectStepView::Connected(targets[tried - 1]@)
    } else if tried < targets.len() {
        ConnectStepView::Try(targets[tried]@)
    } else {
        ConnectStepView::AllFailed(targets[tried - 1]@, connect_error(outcome))
    }
}

/// Starts to connect a client.
pub fn first_connect_step(targets: &Vec<SocketAddr>) -> (step: ConnectStep)
    ensures
        step@ == connect_start(targets@),
{
    if targets.len() == 0 {
        ConnectStep::NoTargets
    } else {
        ConnectStep::Try(targets[0].clone())
    }
}

/// Goes on to connect a client: the targets are tried in order, up to the
/// first one that can be connected.
pub fn next_connect_step(targets: &Vec<SocketAddr>, tried: usize, outcome: ConnectOutcome) -> (step:
    ConnectStep)
    requires
        0 < tried <= targets@.len(),
    ensures
        step@ == connect_next(targets@, tried as int, outcome),
{
    let error = match outcome {
        ConnectOutcome::Connected => {
            return ConnectStep::Connected(targets[tried - 1].clone());
        },
        ConnectOutcome::Failed(error) => error,
        ConnectOutcome::TimedOut => "connection timed out".to_string(),
    };
    if tried < targets.len() {
        ConnectStep::Try(targets[tried].clone())
    } else {
        ConnectStep::AllFailed(targets[tried - 1].clone(), error)
    }
}

/// What connecting a client comes to from the target at `i` on, where each
/// target has a fate.
pub open spec fn connect_result(
    targets: Seq<SocketAddr>,
    fate: spec_fn(int) -> ConnectOutcome,
    i: int,
) -> ConnectStepView
    decreases targets.len() - i,
{
    if i < 0 || i >= targets.len() {
        ConnectStepView::NoTargets
    } else {
        match connect_next(targets, i + 1, fate(i)) {
            ConnectStepView::Try(target) => connect_result(targets, fate, i + 1),
            step => step,
        }
    }
}

/// A client is connected to the first target, in order, that can be
/// connected; the later ones are not even tried.
pub proof fn first_reachable_target_wins(
    targets: Seq<SocketAddr>,
    fate: spec_fn(int) -> ConnectOutcome,
    k: int,
    i: int,
)
    requires
        0 <= i <= k < targets.len(),
        fate(k) is Connected,
        forall|j: int| i <= j < k ==> !(#[trigger] fate(j) is Connected),
    ensures
        connect_result(targets, fate, i) == ConnectStepView::Connected(targets[k]@),
    decreases k - i,
{
    if i < k {
        assert(!(fate(i) is Connected));
        first_reachable_target_wins(targets, fate, k, i + 1);
    }
}

/// Where no target can be connected, plugins are told of the last one and of
/// its error.
pub proof fn last_failure_is_reported(
    targets: Seq<SocketAddr>,
    fate: spec_fn(int) -> ConnectOutcome,
    i: int,
)
    requires
        0 <= i < targets.len(),
        forall|j: int| i <= j < targets.len() ==> !(#[trigger] fate(j) is Connected),
    ensures
        connect_result(targets, fate, i) == ConnectStepView::AllFailed(
            targets.last()@,
            connect_error(fate(targets.len() - 1)),
        ),
    decreases targets.len() - i,
{
    assert(!(fate(i) is Connected));
    if i < targets.len() - 1 {
        last_failure_is_reported(targets, fate, i + 1);
    }
}

/// What plugins are told once every target has failed.
pub fn failure_context(
    config: &ProxyConfig,
    client_addr: &SocketAddr,
    target_addr: SocketAddr,
    error: String,
) -> (ctx: FailureContext)
    ensures
        ctx.client_addr@ == client_addr@,
        ctx.listen_addr@ == config.listen_addr@,
        ctx.target_addr == target_addr,
        ctx.error == error,
{
    FailureContext {
        client_addr: client_addr.clone(),
        listen_addr: config.listen_addr.clone(),
        target_addr,
        error,
    }
}

// ---------------------------------------------------------------------
// Asking the plugins
// ---------------------------------------------------------------------

/// What to do next while the plugins are asked in turn.
#[derive(Debug, Clone, Copy, PartialEq, Eq, Structural)]
pub enum HookStep {
    /// Ask the plugin with this number.
    Ask(usize),
    /// The plugin asked last has settled it.
    Settled,
    /// None of them has.
    Unsettled,
}

/// The step after `asked` of `count` plugins, of which the last one settled it
/// or did not.
pub open spec fn hook_step(count: nat, asked: nat, settled: bool) -> HookStep {
    if settled {
        HookStep::Settled
    } else if asked < count {
        HookStep::Ask(asked as usize)
    } else {
        HookStep::Unsettled
    }
}

/// Asks whether a client may connect: the first plugin that refuses settles
/// it. `accepted` is the answer of the plugin asked last, and true before the
/// first one.
pub fn next_connect_hook(count: usize, asked: usize, accepted: bool) -> (step: HookStep)
    ensures
        step == hook_step(count as nat, asked as nat, !accepted),
{
    if !accepted {
        HookStep::Settled
    } else if asked < count {
        HookStep::Ask(asked)
    } else {
        HookStep::Unsettled
    }
}

/// Asks the plugins about the failure of every target: the first one that has
/// dealt with the client settles it.
pub fn next_failure_hook(count: usize, asked: usize, last: FailureAction) -> (step: HookStep)
    ensures
        step == hook_step(count as nat, asked as nat, last == FailureAction::Handled),
{
    match last {
        FailureAction::Handled => HookStep::Settled,
        FailureAction::PassThrough => if asked < count {
            HookStep::Ask(asked)
        } else {
            HookStep::Unsettled
        },
    }
}

/// What asking the plugins comes to from the one at `asked` on, where each has
/// an answer: who settles it, if anyone does.
pub open spec fn hook_outcome(answers: Seq<bool>, asked: nat) -> Option<nat>
    decreases answers.len() - asked,
{
    if asked >= answers.len() {
        None
    } else {
        match hook_step(answers.len(), asked + 1, answers[asked as int]) {
            HookStep::Settled => Some(asked),
            _ => hook_outcome(answers, asked + 1),
        }
    }
}

/// The first plugin that settles it is the last one asked.
pub proof fn first_plugin_to_settle_wins(answers: Seq<bool>, asked: nat, k: nat)
    requires
        asked <= k < answers.len(),
        answers[k as int],
        forall|j: int| asked <= j < k ==> !#[trigger] answers[j],
    ensures
        hook_outcome(answers, asked) == Some(k),
    decreases k - asked,
{
    if asked < k {
        assert(!answers[asked as int]);
        first_plugin_to_settle_wins(answers, asked + 1, k);
    }
}

// ---------------------------------------------------------------------
// Rewriting what passes through
// ---------------------------------------------------------------------

/// What becomes of a chunk that the plugins are shown in turn: each sees what
/// the one before it has made of it.
pub open spec fn rewritten(chunk: Seq<u8>, replies: Seq<Option<Seq<u8>>>) -> Seq<u8>
    decreases replies.len(),
{
    if replies.len() == 0 {
        chunk
    } else {
        match replies.last() {
            Some(replaced) => replaced,
            None => rewritten(chunk, replies.drop_last()),
        }
    }
}

/// The chunk after one more plugin has been shown it.
pub fn rewrite(current: Vec<u8>, reply: Option<Vec<u8>>) -> (next: Vec<u8>)
    ensures
        next@ == match reply {
            Some(replaced) => replaced@,
            None => current@,
        },
{
    match reply {
        Some(replaced) => replaced,
        None => current,
    }
}

/// Showing a chunk to one plugin after the other comes to what all of them
/// have made of it.
pub proof fn rewriting_goes_on(
    chunk: Seq<u8>,
    replies: Seq<Option<Seq<u8>>>,
    reply: Option<Seq<u8>>,
)
    ensures
        rewritten(chunk, replies.push(reply)) == match reply {
            Some(replaced) => replaced,
            None => rewritten(chunk, replies),
        },
{
    assert(replies.push(reply).drop_last() =~= replies);
}

/// Targets are tried in order: the first one first, and the next one only
/// after the one before it could not be connected. A connected one is the one
/// that was tried last.
pub proof fn targets_are_tried_in_order(
    targets: Seq<SocketAddr>,
    tried: int,
    outcome: ConnectOutcome,
)
    requires
        0 < tried <= targets.len(),
    ensures
        connect_start(targets) == ConnectStepView::Try(targets[0]@),
        outcome is Connected ==> connect_next(targets, tried, outcome)
            == ConnectStepView::Connected(targets[tried - 1]@),
        !(outcome is Connected) && tried < targets.len() ==> connect_next(targets, tried, outcome)
            == ConnectStepView::Try(targets[tried]@),
        outcome matches ConnectOutcome::Failed(error) ==> tried == targets.len() ==> connect_next(
            targets,
            tried,
            outcome,
        ) == ConnectStepView::AllFailed(targets.last()@, error@),
        outcome is TimedOut && tried == targets.len() ==> connect_next(targets, tried, outcome)
            == ConnectStepView::AllFailed(targets.last()@, "connection timed out"@),
{
}

/// Without targets there is nothing to try.
pub proof fn nothing_to_try(targets: Seq<SocketAddr>)
    requires
        targets.len() == 0,
    ensures
        connect_start(targets) == ConnectStepView::NoTargets,
{
}

/// Plugins are asked in order, each once, until one settles it; where none
/// does, all of them have been asked.
pub proof fn plugins_are_asked_in_order(count: nat, asked: nat, settled: bool)
    requires
        count <= usize::MAX,
    ensures
        settled <==> hook_step(count, asked, settled) == HookStep::Settled,
        !settled && asked < count ==> hook_step(count, asked, settled) == HookStep::Ask(
            asked as usize,
        ),
        !settled && asked >= count ==> hook_step(count, asked, settled) == HookStep::Unsettled,
{
}

/// Where no plugin settles it, none is said to have.
pub proof fn nobody_settles_it(answers: Seq<bool>, asked: nat)
    requires
        forall|j: int| asked <= j < answers.len() ==> !#[trigger] answers[j],
    ensures
        hook_outcome(answers, asked) is None,
    decreases answers.len() - asked,
{
    if asked < answers.len() {
        assert(!answers[asked as int]);
        nobody_settles_it(answers, asked + 1);
    }
}

/// A chunk comes to what the last plugin that has replaced it has made of it,
/// and stays as it is where none has.
pub proof fn last_rewrite_wins(chunk: Seq<u8>, replies: Seq<Option<Seq<u8>>>, k: int)
    requires
        -1 <= k < replies.len(),
        k >= 0 ==> replies[k] is Some,
        forall|j: int| k < j < replies.len() ==> #[trigger] replies[j] is None,
    ensures
        rewritten(chunk, replies) == if k >= 0 {
            replies[k]->0
        } else {
            chunk
        },
    decreases replies.len(),
{
    if replies.len() > 0 && k < replies.len() - 1 {
        assert(replies[replies.len() - 1] is None);
        let init = replies.drop_last();
        assert forall|j: int| k < j < init.len() implies #[trigger] init[j] is None by {
            assert(init[j] == replies[j]);
        }
        last_rewrite_wins(chunk, init, k);
    }
}

} // verus!
