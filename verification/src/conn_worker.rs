//! The worker process that copies one connection: what it is told on its
//! command line, and how it ends.

use vstd::prelude::*;

use crate::net::{AddrView, SocketAddr};
use crate::plugin::Direction;
use crate::shaping::{words_are_distinct, ShapingConfig, WaitInOut, DEFAULT_CHUNK_SIZE};
use crate::text::{
    decimal, decimal_parses_back, parse_u64, parse_unsigned, parse_usize, push_decimal, str_eq,
};

verus! {

/// The views of a list of arguments.
pub open spec fn arg_views(args: Seq<String>) -> Seq<Seq<char>> {
    Seq::new(args.len(), |i: int| args[i]@)
}

/// Whether the program has been started as a worker.
pub fn is_worker_invocation(args: &Vec<String>) -> (worker: bool)
    ensures
        worker == (args@.len() > 1 && args@[1]@ == "--conn-worker"@),
{
    args.len() > 1 && str_eq(args[1].as_str(), "--conn-worker")
}

/// The arguments that tell a worker how to shape its connection.
pub open spec fn shaping_arg_views(shaping: ShapingConfig) -> Seq<Seq<char>> {
    (match shaping.max_bandwidth_bps {
        Some(bps) => seq!["--max-bandwidth-bps"@, decimal(bps as nat)],
        None => Seq::empty(),
    }) + (match shaping.random_wait_ms {
        Some(ms) => seq!["--random-wait-ms"@, decimal(ms as nat)],
        None => Seq::empty(),
    }) + seq!["--wait-in-out"@, shaping.wait_in_out.word()] + seq![
        "--bufsize"@,
        decimal(shaping.bufsize as nat),
    ]
}

/// The arguments that a worker is started with.
pub open spec fn worker_arg_views(shaping: Option<ShapingConfig>) -> Seq<Seq<char>> {
    seq!["--conn-worker"@] + match shaping {
        Some(s) => shaping_arg_views(s),
        None => Seq::empty(),
    }
}

fn push_arg(args: &mut Vec<String>, arg: String)
    ensures
        arg_views(final(args)@) == arg_views(old(args)@).push(arg@),
{
    args.push(arg);
    assert(arg_views(args@) =~= arg_views(old(args)@).push(arg@));
}

fn number(n: u64) -> (text: String)
    ensures
        text@ == decimal(n as nat),
{
    let mut text = String::new();
    push_decimal(&mut text, n);
    assert(text@ =~= decimal(n as nat));
    text
}

/// The arguments that a worker is started with.
pub fn worker_args(shaping: Option<&ShapingConfig>) -> (args: Vec<String>)
    ensures
        arg_views(args@) == worker_arg_views(
            match shaping {
                Some(s) => Some(*s),
                None => None,
            },
        ),
{
    let mut args: Vec<String> = Vec::new();
    push_arg(&mut args, "--conn-worker".to_string());
    if let Some(s) = shaping {
        if let Some(bps) = s.max_bandwidth_bps {
            push_arg(&mut args, "--max-bandwidth-bps".to_string());
            push_arg(&mut args, number(bps));
        }
        if let Some(ms) = s.random_wait_ms {
            push_arg(&mut args, "--random-wait-ms".to_string());
            push_arg(&mut args, number(ms));
        }
        push_arg(&mut args, "--wait-in-out".to_string());
        push_arg(&mut args, s.wait_in_out.as_str().to_string());
        push_arg(&mut args, "--bufsize".to_string());
        push_arg(&mut args, number(s.bufsize as u64));
    }
    assert(arg_views(args@) =~= worker_arg_views(
        match shaping {
            Some(s) => Some(*s),
            None => None,
        },
    ));
    args
}

/// What is assumed where the arguments do not say otherwise.
pub open spec fn default_shaping() -> ShapingConfig {
    ShapingConfig {
        max_bandwidth_bps: None,
        wait_in_out: WaitInOut::Both,
        random_wait_ms: None,
        bufsize: DEFAULT_CHUNK_SIZE,
    }
}

/// The settings with one flag applied, if the flag and its value are valid.
pub open spec fn with_flag(s: ShapingConfig, flag: Seq<char>, value: Seq<char>) -> Option<
    ShapingConfig,
> {
    if flag == "--max-bandwidth-bps"@ {
        match parse_unsigned(value, u64::MAX as nat) {
            Some(n) => Some(ShapingConfig { max_bandwidth_bps: Some(n as u64), ..s }),
            None => None,
        }
    } else if flag == "--random-wait-ms"@ {
        match parse_unsigned(value, u64::MAX as nat) {
            Some(n) => Some(ShapingConfig { random_wait_ms: Some(n as u64), ..s }),
            None => None,
        }
    } else if flag == "--wait-in-out"@ {
        if value == WaitInOut::In.word() {
            Some(ShapingConfig { wait_in_out: WaitInOut::In, ..s })
        } else if value == WaitInOut::Out.word() {
            Some(ShapingConfig { wait_in_out: WaitInOut::Out, ..s })
        } else if value == WaitInOut::Both.word() {
            Some(ShapingConfig { wait_in_out: WaitInOut::Both, ..s })
        } else {
            None
        }
    } else if flag == "--bufsize"@ {
        match parse_unsigned(value, usize::MAX as nat) {
            Some(n) => Some(ShapingConfig { bufsize: n as usize, ..s }),
            None => None,
        }
    } else {
        None
    }
}

/// The settings with the first `n` arguments applied, two by two.
pub open spec fn with_flags(args: Seq<Seq<char>>, n: int) -> Option<ShapingConfig>
    decreases n,
{
    if n <= 0 {
        Some(default_shaping())
    } else if n == 1 {
        None
    } else {
        match with_flags(args, n - 2) {
            Some(s) => with_flag(s, args[n - 2], args[n - 1]),
            None => None,
        }
    }
}

/// The settings that arguments stand for: none where there are no arguments,
/// or where one of them is not valid.
pub open spec fn parsed_shaping(args: Seq<Seq<char>>) -> Option<ShapingConfig> {
    if args.len() == 0 {
        None
    } else {
        with_flags(args, args.len() as int)
    }
}

fn apply_flag(s: ShapingConfig, flag: &str, value: &str) -> (result: Option<ShapingConfig>)
    ensures
        result == with_flag(s, flag@, value@),
{
    if str_eq(flag, "--max-bandwidth-bps") {
        match parse_u64(value) {
            Some(n) => Some(ShapingConfig { max_bandwidth_bps: Some(n), ..s }),
            None => None,
        }
    } else if str_eq(flag, "--random-wait-ms") {
        match parse_u64(value) {
            Some(n) => Some(ShapingConfig { random_wait_ms: Some(n), ..s }),
            None => None,
        }
    } else if str_eq(flag, "--wait-in-out") {
        proof {
            words_are_distinct(WaitInOut::In, WaitInOut::Out);
            words_are_distinct(WaitInOut::In, WaitInOut::Both);
            words_are_distinct(WaitInOut::Out, WaitInOut::Both);
        }
        match WaitInOut::parse_word(value) {
            Ok(w) => Some(ShapingConfig { wait_in_out: w, ..s }),
            Err(_) => None,
        }
    } else if str_eq(flag, "--bufsize") {
        match parse_usize(value) {
            Some(n) => Some(ShapingConfig { bufsize: n, ..s }),
            None => None,
        }
    } else {
        None
    }
}

/// Reads how to shape a connection from the arguments of a worker. Anything
/// that is not valid leaves the connection without shaping, rather than
/// failing it.
pub fn parse_shaping_args(args: &[String]) -> (shaping: Option<ShapingConfig>)
    ensures
        shaping == parsed_shaping(arg_views(args@)),
{
    if args.len() == 0 {
        return None;
    }
    let ghost all = arg_views(args@);
    let mut shaping = ShapingConfig {
        max_bandwidth_bps: None,
        wait_in_out: WaitInOut::Both,
        random_wait_ms: None,
        bufsize: DEFAULT_CHUNK_SIZE,
    };
    let mut i: usize = 0;
    while i < args.len()
        invariant
            i <= args@.len(),
            i % 2 == 0,
            all == arg_views(args@),
            with_flags(all, i as int) == Some(shaping),
        decreases args@.len() - i,
    {
        if i + 1 == args.len() {
            proof {
                lemma_odd_flags(all, i + 1);
            }
            return None;
        }
        match apply_flag(shaping, args[i].as_str(), args[i + 1].as_str()) {
            Some(next) => {
                shaping = next;
            },
            None => {
                proof {
                    assert(with_flags(all, i + 2) is None);
                    lemma_invalid_flags(all, i + 2, all.len() as int);
                }
                return None;
            },
        }
        i = i + 2;
    }
    Some(shaping)
}

proof fn lemma_odd_flags(args: Seq<Seq<char>>, n: int)
    requires
        n >= 1,
        n % 2 == 1,
    ensures
        with_flags(args, n) is None,
    decreases n,
{
    if n > 1 {
        lemma_odd_flags(args, n - 2);
    }
}

/// Once a pair is not valid, nothing that follows makes up for it.
proof fn lemma_invalid_flags(args: Seq<Seq<char>>, k: int, n: int)
    requires
        0 <= k <= n,
        k % 2 == 0,
        with_flags(args, k) is None,
    ensures
        with_flags(args, n) is None,
    decreases n - k,
{
    if n % 2 == 1 {
        lemma_odd_flags(args, n);
    } else if n > k {
        lemma_invalid_flags(args, k, n - 2);
    }
}

/// What a worker is told is what it reads: the settings come through its
/// command line unchanged.
pub proof fn shaping_args_read_back(shaping: ShapingConfig)
    ensures
        parsed_shaping(shaping_arg_views(shaping)) == Some(shaping),
{
    reveal_with_fuel(with_flags, 5);
    lemma_flags_are_distinct();
    words_are_distinct(WaitInOut::In, WaitInOut::Out);
    words_are_distinct(WaitInOut::In, WaitInOut::Both);
    words_are_distinct(WaitInOut::Out, WaitInOut::Both);
    decimal_parses_back(shaping.bufsize as nat, usize::MAX as nat);
    if let Some(bps) = shaping.max_bandwidth_bps {
        decimal_parses_back(bps as nat, u64::MAX as nat);
    }
    if let Some(ms) = shaping.random_wait_ms {
        decimal_parses_back(ms as nat, u64::MAX as nat);
    }
}

proof fn lemma_flags_are_distinct()
    ensures
        "--max-bandwidth-bps"@ != "--random-wait-ms"@,
        "--max-bandwidth-bps"@ != "--wait-in-out"@,
        "--max-bandwidth-bps"@ != "--bufsize"@,
        "--random-wait-ms"@ != "--wait-in-out"@,
        "--random-wait-ms"@ != "--bufsize"@,
        "--wait-in-out"@ != "--bufsize"@,
{
    reveal_strlit("--max-bandwidth-bps");
    reveal_strlit("--random-wait-ms");
    reveal_strlit("--wait-in-out");
    reveal_strlit("--bufsize");
    assert("--max-bandwidth-bps"@.len() == 19);
    assert("--random-wait-ms"@.len() == 16);
    assert("--wait-in-out"@.len() == 13);
    assert("--bufsize"@.len() == 9);
}

/// Which program to start as a worker: an explicit choice comes first, then
/// that of the environment, then the program itself.
pub fn worker_exe_path<P, E>(
    override_path: Option<P>,
    env_path: Option<P>,
    current_exe: Result<P, E>,
) -> (path: Result<P, E>)
    ensures
        path == match override_path {
            Some(p) => Ok::<P, E>(p),
            None => match env_path {
                Some(p) => Ok::<P, E>(p),
                None => current_exe,
            },
        },
{
    if let Some(path) = override_path {
        return Ok(path);
    }
    if let Some(path) = env_path {
        return Ok(path);
    }
    current_exe
}

/// How the copy in one direction came to its end.
#[derive(Debug)]
pub enum CopyOutcome {
    /// The other side closed the connection after this many bytes.
    Copied(u64),
    /// The copy failed for this reason.
    Failed(String),
    /// The thread that copied came to grief.
    Panicked,
}

/// The title of a worker's process.
pub open spec fn worker_title_text(client: AddrView, target: AddrView) -> Seq<char> {
    "redir-rust "@ + client.text() + " -> "@ + target.text()
}

/// The title of a worker's process.
pub fn worker_title(client_addr: &SocketAddr, target_addr: &SocketAddr) -> (title: String)
    ensures
        title@ == worker_title_text(client_addr@, target_addr@),
{
    let mut title = "redir-rust ".to_string();
    client_addr.push_text(&mut title);
    title.append(" -> ");
    target_addr.push_text(&mut title);
    title
}

/// The name of a direction in a worker's log.
pub open spec fn direction_label(direction: Direction) -> Seq<char> {
    match direction {
        Direction::ClientToTarget => "client->target"@,
        Direction::TargetToClient => "target->client"@,
    }
}

/// The line that a worker logs of a copy.
pub open spec fn copy_line(direction: Direction, outcome: CopyOutcome) -> Option<Seq<char>> {
    match outcome {
        CopyOutcome::Copied(n) => Some(
            "conn-worker: "@ + direction_label(direction) + " copied "@ + decimal(n as nat)
                + " bytes"@,
        ),
        CopyOutcome::Failed(err) => Some(
            "conn-worker: "@ + direction_label(direction) + " copy failed: "@ + err@,
        ),
        CopyOutcome::Panicked => None,
    }
}

/// The line that a worker logs of a copy, if it logs one.
pub fn copy_report(direction: Direction, outcome: &CopyOutcome) -> (line: Option<String>)
    ensures
        line is Some <==> copy_line(direction, *outcome) is Some,
        line matches Some(l) ==> copy_line(direction, *outcome) == Some(l@),
{
    let mut line = "conn-worker: ".to_string();
    match direction {
        Direction::ClientToTarget => line.append("client->target"),
        Direction::TargetToClient => line.append("target->client"),
    }
    match outcome {
        CopyOutcome::Copied(n) => {
            line.append(" copied ");
            push_decimal(&mut line, *n);
            line.append(" bytes");
            Some(line)
        },
        CopyOutcome::Failed(err) => {
            line.append(" copy failed: ");
            line.append(err.as_str());
            Some(line)
        },
        CopyOutcome::Panicked => None,
    }
}

/// Whether a worker has done its job: both directions were copied to the end.
pub fn worker_succeeded(
    client_to_target: &CopyOutcome,
    target_to_client: &CopyOutcome,
) -> (ok: bool)
    ensures
        ok == (client_to_target is Copied && target_to_client is Copied),
{
    let first = match client_to_target {
        CopyOutcome::Copied(_) => true,
        _ => false,
    };
    let second = match target_to_client {
        CopyOutcome::Copied(_) => true,
        _ => false,
    };
    first && second
}

/// A worker is told that it is one, and then how to shape its connection if it
/// is to be shaped; what it reads behind the first argument is what it was
/// told.
pub proof fn worker_reads_what_it_is_told(shaping: Option<ShapingConfig>)
    ensures
        worker_arg_views(shaping).len() >= 1,
        worker_arg_views(shaping)[0] == "--conn-worker"@,
        parsed_shaping(worker_arg_views(shaping).skip(1)) == shaping,
{
    match shaping {
        Some(s) => {
            shaping_args_read_back(s);
            assert(worker_arg_views(shaping).skip(1) =~= shaping_arg_views(s));
        },
        None => {
            assert(worker_arg_views(shaping).skip(1) =~= Seq::empty());
        },
    }
}

/// Arguments that are not valid leave the connection without shaping: an odd
/// one out, a flag that is not known, a number that is none, or a word that is
/// none of the three.
pub proof fn invalid_arguments_are_dropped(args: Seq<Seq<char>>, k: int)
    requires
        args.len() % 2 == 1 || (0 <= k && 2 * k + 1 < args.len() && ({
            let flag = args[2 * k];
            let value = args[2 * k + 1];
            ||| flag != "--max-bandwidth-bps"@ && flag != "--random-wait-ms"@ && flag
                != "--wait-in-out"@ && flag != "--bufsize"@
            ||| flag != "--wait-in-out"@ && parse_unsigned(value, u64::MAX as nat) is None
            ||| flag == "--wait-in-out"@ && value != "in"@ && value != "out"@ && value != "both"@
        })),
    ensures
        parsed_shaping(args) is None,
{
    let n = args.len() as int;
    if n % 2 == 1 {
        lemma_odd_flags(args, n);
    } else {
        lemma_flags_are_distinct();
        let at = 2 * k;
        if args[at] == "--bufsize"@ && parse_unsigned(args[at + 1], usize::MAX as nat) is Some {
            assert(parse_unsigned(args[at + 1], u64::MAX as nat) is Some);
        }
        assert(with_flags(args, at + 2) is None);
        lemma_invalid_flags(args, at + 2, n);
    }
}

/// What is not said is taken to be the default, and of what is said twice the
/// last counts.
pub proof fn flags_set_what_they_name(s: ShapingConfig, flag: Seq<char>, value: Seq<char>)
    ensures
        with_flag(s, flag, value) matches Some(t) ==> {
            &&& flag != "--max-bandwidth-bps"@ ==> t.max_bandwidth_bps == s.max_bandwidth_bps
            &&& flag != "--random-wait-ms"@ ==> t.random_wait_ms == s.random_wait_ms
            &&& flag != "--wait-in-out"@ ==> t.wait_in_out == s.wait_in_out
            &&& flag != "--bufsize"@ ==> t.bufsize == s.bufsize
            &&& flag == "--max-bandwidth-bps"@ ==> t.max_bandwidth_bps is Some && parse_unsigned(
                value,
                u64::MAX as nat,
            ) == Some(t.max_bandwidth_bps->0 as nat)
            &&& flag == "--random-wait-ms"@ ==> t.random_wait_ms is Some && parse_unsigned(
                value,
                u64::MAX as nat,
            ) == Some(t.random_wait_ms->0 as nat)
            &&& flag == "--bufsize"@ ==> parse_unsigned(value, usize::MAX as nat) == Some(
                t.bufsize as nat,
            )
        },
        default_shaping().max_bandwidth_bps is None,
        default_shaping().random_wait_ms is None,
        default_shaping().wait_in_out == WaitInOut::Both,
        default_shaping().bufsize == 16 * 1024,
{
    lemma_flags_are_distinct();
}

/// The line of a copy says which way it went and how far, or why it failed;
/// the two ways never share a line.
pub proof fn copy_lines_say_which_way(direction: Direction, n: u64, error: String)
    ensures
        copy_line(Direction::ClientToTarget, CopyOutcome::Copied(n)) == Some(
            "conn-worker: "@ + "client->target"@ + " copied "@ + decimal(n as nat) + " bytes"@,
        ),
        copy_line(Direction::TargetToClient, CopyOutcome::Copied(n)) == Some(
            "conn-worker: "@ + "target->client"@ + " copied "@ + decimal(n as nat) + " bytes"@,
        ),
        copy_line(Direction::ClientToTarget, CopyOutcome::Failed(error)) == Some(
            "conn-worker: "@ + "client->target"@ + " copy failed: "@ + error@,
        ),
        copy_line(Direction::TargetToClient, CopyOutcome::Failed(error)) == Some(
            "conn-worker: "@ + "target->client"@ + " copy failed: "@ + error@,
        ),
        copy_line(direction, CopyOutcome::Panicked) is None,
{
}

/// The title of a worker names the program, then the client, then the target.
pub proof fn titles_name_both_ends(client: AddrView, target: AddrView)
    ensures
        worker_title_text(client, target) == "redir-rust "@ + client.text() + " -> "@
            + target.text(),
{
}

} // verus!
