//! Decisions of the compilation driver: command-line flags, when to stop
//! searching, and which generated kernel is the best so far. The driver
//! itself (timing, files, the rewrite runner) lives outside the library.

use vstd::prelude::*;

use crate::text::str_eq;

verus! {

/// Index of the first argument equal to `flag`, or -1.
pub open spec fn flag_index(args: Seq<Seq<char>>, flag: Seq<char>, i: int) -> int
    decreases args.len() - i,
{
    if i < 0 || i >= args.len() {
        -1
    } else if args[i] == flag {
        i
    } else {
        flag_index(args, flag, i + 1)
    }
}

/// Models of the arguments.
pub open spec fn args_view(args: Seq<String>) -> Seq<Seq<char>> {
    args.map_values(|a: String| a@)
}

fn find_flag(args: &Vec<String>, flag: &str) -> (r: Option<usize>)
    ensures
        r matches Some(i) ==> i == flag_index(args_view(args@), flag@, 0) && i < args.len(),
        r is None ==> flag_index(args_view(args@), flag@, 0) == -1,
{
    let ghost av = args_view(args@);
    let mut i: usize = 0;
    while i < args.len()
        invariant
            av == args_view(args@),
            i <= args.len(),
            flag_index(av, flag@, 0) == flag_index(av, flag@, i as int),
        decreases args.len() - i,
    {
        assert(av[i as int] == args@[i as int]@);
        if str_eq(args[i].as_str(), flag) {
            return Some(i);
        }
        i = i + 1;
    }
    None
}

/// Whether the driver only prints its usage: `--help` is given, or `--input`
/// or `--output` is missing.
pub fn wants_help(args: &Vec<String>) -> (r: bool)
    ensures
        r == (flag_index(args_view(args@), "--help"@, 0) >= 0 || flag_index(args_view(args@), "--input"@, 0) < 0
            || flag_index(args_view(args@), "--output"@, 0) < 0),
{
    find_flag(args, "--help").is_some() || find_flag(args, "--input").is_none() || find_flag(
        args,
        "--output",
    ).is_none()
}

/// The argument after the first occurrence of `flag`: `None` when the flag is
/// absent, `Some(None)` when it is the last argument.
pub fn flag_value(args: &Vec<String>, flag: &str) -> (r: Option<Option<String>>)
    ensures
        ({
            let i = flag_index(args_view(args@), flag@, 0);
            &&& i < 0 ==> r is None
            &&& 0 <= i && i + 1 >= args.len() ==> r == Some(None::<String>)
            &&& 0 <= i && i + 1 < args.len() ==> (r matches Some(Some(v)) && v@ == args@[i + 1]@)
        }),
{
    match find_flag(args, flag) {
        None => None,
        Some(i) => if i + 1 >= args.len() {
            Some(None)
        } else {
            Some(Some(args[i + 1].clone()))
        },
    }
}

/// First line of the usage text; `cargo` stands for a run through `cargo run`.
pub open spec fn usage_line(program_name: Seq<char>) -> Seq<char> {
    if program_name == "cargo"@ {
        "Usage: cargo run -- --input <hlo_path> --output <asm_path> [--log <log_dir>]\n"@
    } else {
        "Usage: "@ + program_name + " --input <hlo_path> --output <asm_path> [--log <log_dir>]\n"@
    }
}

/// The usage text of the driver.
pub open spec fn help_text(program_name: Seq<char>) -> Seq<char> {
    usage_line(program_name) + "\nDescription:\n"@
        + "  This program compiles an .hlo file into an assembly code.\n"@
        + "  Candidate assembly codes are logged in the specified log directory.\n"@
        + "  The final assembly code is chosen based on performance cost.\n"@ + "\nOptions:\n"@
        + "  --help       Print this help message\n"@
        + "  --input      Specify the input .hlo file path\n"@
        + "               (required, must have .hlo extension)\n"@
        + "  --output     Specify the output assembly file path\n"@
        + "               (required, will be created/overwritten)\n"@
        + "  --log        Specify the log directory\n"@
        + "               (optional, defaults to /tmp/log if not provided)\n"@ + "\n"@
}

/// The usage text of the driver for the given program name.
pub fn print_help(program_name: &str) -> (r: String)
    ensures
        r@ == help_text(program_name@),
{
    let mut s = String::new();
    if str_eq(program_name, "cargo") {
        s.append("Usage: cargo run -- --input <hlo_path> --output <asm_path> [--log <log_dir>]\n");
    } else {
        s.append("Usage: ");
        s.append(program_name);
        s.append(" --input <hlo_path> --output <asm_path> [--log <log_dir>]\n");
    }
    s.append("\nDescription:\n");
    s.append("  This program compiles an .hlo file into an assembly code.\n");
    s.append("  Candidate assembly codes are logged in the specified log directory.\n");
    s.append("  The final assembly code is chosen based on performance cost.\n");
    s.append("\nOptions:\n");
    s.append("  --help       Print this help message\n");
    s.append("  --input      Specify the input .hlo file path\n");
    s.append("               (required, must have .hlo extension)\n");
    s.append("  --output     Specify the output assembly file path\n");
    s.append("               (required, will be created/overwritten)\n");
    s.append("  --log        Specify the log directory\n");
    s.append("               (optional, defaults to /tmp/log if not provided)\n");
    s.append("\n");
    s
}

/// A generated kernel: where its assembly is, its performance cost, and the
/// time (in nanoseconds since the start) at which it was found.
#[derive(Debug)]
pub struct AsmCandidate {
    pub path: String,
    pub cost: i32,
    pub timestamp_ns: u128,
}

/// Largest time span a `std::time::Duration` holds, in nanoseconds.
pub open spec fn max_duration_ns() -> int {
    18446744073709551615int * 1000000000 + 999999999
}

/// What the driver does after a check.
#[derive(Debug, PartialEq, Eq, Structural)]
pub enum Progress {
    /// No improvement for too long: stop with the best kernel.
    Stop,
    /// Go on; the search stops at the given time (nanoseconds) without progress.
    Continue(u128),
}

/// The search stops once the time elapsed exceeds `saturation_factor` times
/// the time at which the best kernel was found; otherwise it goes on, and
/// stops at the earlier of that bound and the overall limit without progress.
pub open spec fn termination(best_timestamp: Option<int>, elapsed: int, factor: int, limit: int) -> Progress {
    match best_timestamp {
        Some(ts) => if elapsed > ts * factor {
            Progress::Stop
        } else {
            Progress::Continue(
                (if ts * factor <= limit {
                    ts * factor
                } else {
                    limit
                }) as u128,
            )
        },
        None => Progress::Continue(limit as u128),
    }
}

/// Timestamp of the best kernel, if any.
pub open spec fn best_timestamp(best: Option<AsmCandidate>) -> Option<int> {
    match best {
        Some(b) => Some(b.timestamp_ns as int),
        None => None,
    }
}

/// Whether the search should stop (see `termination`).
pub fn check_termination(
    best: &Option<AsmCandidate>,
    elapsed_ns: u128,
    saturation_factor: u32,
    time_limit_ns: u128,
) -> (r: Progress)
    requires
        best matches Some(b) ==> b.timestamp_ns * saturation_factor <= max_duration_ns(),
    ensures
        r == termination(best_timestamp(*best), elapsed_ns as int, saturation_factor as int, time_limit_ns as int),
{
    match best {
        Some(b) => {
            assert(b.timestamp_ns * saturation_factor <= u128::MAX) by (nonlinear_arith)
                requires
                    b.timestamp_ns * saturation_factor <= max_duration_ns(),
            {
            }
            let bound = b.timestamp_ns * (saturation_factor as u128);
            if elapsed_ns > bound {
                Progress::Stop
            } else if bound <= time_limit_ns {
                Progress::Continue(bound)
            } else {
                Progress::Continue(time_limit_ns)
            }
        },
        None => Progress::Continue(time_limit_ns),
    }
}

/// How the driver ends once its overall time limit is reached.
#[derive(Debug, PartialEq, Eq)]
pub enum Finish {
    /// Copy the assembly at this path, the best found, to the output.
    CopyBest(String),
    /// No kernel was found: no output file is left behind.
    NoResult,
    /// The limit is not reached yet; ending now is an error.
    TooEarly,
}

/// The ending of the search once the elapsed time exceeds the limit: the best
/// kernel when there is one, otherwise no result; before that, an error.
pub open spec fn finish_of(best: Option<AsmCandidate>, elapsed: int, limit: int) -> Finish {
    if elapsed > limit {
        match best {
            Some(b) => Finish::CopyBest(b.path),
            None => Finish::NoResult,
        }
    } else {
        Finish::TooEarly
    }
}

/// How the search ends at the overall time limit (see `finish_of`).
pub fn timeout(best: &Option<AsmCandidate>, elapsed_ns: u128, time_limit_ns: u128) -> (r: Finish)
    ensures
        r == finish_of(*best, elapsed_ns as int, time_limit_ns as int),
{
    if elapsed_ns > time_limit_ns {
        match best {
            Some(b) => Finish::CopyBest(b.path.clone()),
            None => Finish::NoResult,
        }
    } else {
        Finish::TooEarly
    }
}

/// Whether a kernel of cost `cost` becomes the best: it is the first one, or
/// cheaper than the best so far.
pub open spec fn improves(best: Option<AsmCandidate>, cost: int) -> bool {
    match best {
        Some(b) => cost < b.cost,
        None => true,
    }
}

/// Records a newly evaluated kernel: it replaces the best one when it improves
/// on it (see `improves`), and the result says whether it did.
pub fn update_best(best: &mut Option<AsmCandidate>, path: String, cost: i32, time_ns: u128) -> (r: bool)
    ensures
        r == improves(*old(best), cost as int),
        r ==> *final(best) == Some(AsmCandidate { path, cost, timestamp_ns: time_ns }),
        !r ==> *final(best) == *old(best),
{
    let better = match best {
        Some(b) => cost < b.cost,
        None => true,
    };
    if better {
        *best = Some(AsmCandidate { path, cost, timestamp_ns: time_ns });
    }
    better
}


/// After rewrite iteration number `iterations`, the hook extracts every
/// `every` iterations (not before the first): it then uses `limit` and the next
/// round uses `limit + 1`. `None` when no extraction is due.
pub open spec fn hook_plan(iterations: int, every: int, limit: int) -> Option<(int, int)> {
    if iterations % every == 0 && iterations > 0 {
        Some((limit, limit + 1))
    } else {
        None
    }
}

/// Whether the rewrite hook extracts after this iteration, and with which
/// limit (this round's, then the next round's); see `hook_plan`.
pub fn hook_step(iterations: usize, every: usize, limit: usize) -> (r: Option<(usize, usize)>)
    requires
        every > 0,
        iterations % every == 0 && iterations > 0 ==> limit < usize::MAX,
    ensures
        match hook_plan(iterations as int, every as int, limit as int) {
            None => r is None,
            Some(p) => r matches Some(q) && q.0 == p.0 && q.1 == p.1,
        },
{
    if iterations % every == 0 && iterations > 0 {
        Some((limit, limit + 1))
    } else {
        None
    }
}

/// Why the rewrite runner stopped.
#[derive(Debug, Clone, Copy, PartialEq, Eq, Structural)]
pub enum StopKind {
    Saturated,
    IterationLimit,
    NodeLimit,
    TimeLimit,
    Other,
}

/// What the driver does once the rewrite runner stopped.
#[derive(Debug, Clone, Copy, PartialEq, Eq, Structural)]
pub enum AfterRewrites {
    /// The time is up: no further extraction.
    Finish,
    /// The e-graph is complete or full: keep extracting until the time limit.
    ExtractUntilTimeLimit,
    /// A stop that should not happen: an error.
    Fail,
}

/// The driver's reaction to each way the rewrite runner stops.
pub open spec fn after_rewrites_of(reason: StopKind) -> AfterRewrites {
    match reason {
        StopKind::TimeLimit => AfterRewrites::Finish,
        StopKind::NodeLimit | StopKind::Saturated => AfterRewrites::ExtractUntilTimeLimit,
        StopKind::IterationLimit | StopKind::Other => AfterRewrites::Fail,
    }
}

/// What the driver does once the rewrite runner stopped (see `after_rewrites_of`).
pub fn after_rewrites(reason: StopKind) -> (r: AfterRewrites)
    ensures
        r == after_rewrites_of(reason),
{
    match reason {
        StopKind::TimeLimit => AfterRewrites::Finish,
        StopKind::NodeLimit | StopKind::Saturated => AfterRewrites::ExtractUntilTimeLimit,
        StopKind::IterationLimit | StopKind::Other => AfterRewrites::Fail,
    }
}

/// The best kernel after the given kernels were evaluated in order, each
/// recorded as `update_best` does.
pub open spec fn best_after(cands: Seq<AsmCandidate>) -> Option<AsmCandidate>
    decreases cands.len(),
{
    if cands.len() == 0 {
        None
    } else {
        let b = best_after(cands.drop_last());
        if improves(b, cands.last().cost as int) {
            Some(cands.last())
        } else {
            b
        }
    }
}

/// The kernel that the driver keeps is the cheapest of all it evaluated, and
/// the first of the cheapest: it is one of them, none costs less, and every
/// earlier one costs more.
pub proof fn lemma_best_is_cheapest(cands: Seq<AsmCandidate>)
    ensures
        cands.len() == 0 <==> best_after(cands) is None,
        best_after(cands) matches Some(b) ==> exists|i: int|
            0 <= i < cands.len() && cands[i] == b && (forall|j: int| 0 <= j < cands.len() ==> b.cost <= #[trigger] cands[j].cost)
                && (forall|j: int| 0 <= j < i ==> #[trigger] cands[j].cost > b.cost),
    decreases cands.len(),
{
    if cands.len() > 0 {
        let prev = cands.drop_last();
        lemma_best_is_cheapest(prev);
        let last = cands.len() - 1;
        match best_after(prev) {
            None => {
                assert(prev.len() == 0);
                assert(cands[last] == cands.last());
            },
            Some(b) => {
                let i = choose|i: int|
                    0 <= i < prev.len() && prev[i] == b && (forall|j: int| 0 <= j < prev.len() ==> b.cost <= #[trigger] prev[j].cost)
                        && (forall|j: int| 0 <= j < i ==> #[trigger] prev[j].cost > b.cost);
                if cands.last().cost < b.cost {
                    assert forall|j: int| 0 <= j < cands.len() implies cands.last().cost <= #[trigger] cands[j].cost by {
                        if j < last {
                            assert(cands[j] == prev[j]);
                        }
                    }
                    assert forall|j: int| 0 <= j < last implies #[trigger] cands[j].cost > cands.last().cost by {
                        assert(cands[j] == prev[j]);
                    }
                    assert(cands[last] == cands.last());
                } else {
                    assert(cands[i] == prev[i]);
                    assert forall|j: int| 0 <= j < cands.len() implies b.cost <= #[trigger] cands[j].cost by {
                        if j < last {
                            assert(cands[j] == prev[j]);
                        }
                    }
                    assert forall|j: int| 0 <= j < i implies #[trigger] cands[j].cost > b.cost by {
                        assert(cands[j] == prev[j]);
                    }
                }
            },
        }
    }
}


/// Once the search decides to stop it keeps deciding so as time passes, and
/// the time it announces for stopping never lies beyond the overall limit.
pub proof fn lemma_stop_is_final(best_timestamp: Option<int>, e1: int, e2: int, factor: int, limit: int)
    requires
        0 <= limit <= u128::MAX,
        best_timestamp matches Some(ts) ==> 0 <= ts * factor <= u128::MAX,
    ensures
        termination(best_timestamp, e1, factor, limit) == Progress::Stop && e1 <= e2 ==> termination(
            best_timestamp,
            e2,
            factor,
            limit,
        ) == Progress::Stop,
        termination(best_timestamp, e1, factor, limit) matches Progress::Continue(d) ==> d <= limit,
{
}

} // verus!
