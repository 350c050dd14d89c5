//! Resolving a parsed invocation into a launch plan, and exit-code
//! forwarding.
//!
//! The resolver picks the executable (the `-c` override if given, else the
//! first pass-through token) and always drops the original executable from
//! the forwarded arguments — it is never handed to the override, nor back
//! to itself. An empty pass-through tail means Steam's `%command%` was
//! missing: nothing is spawned.

use crate::args::parse_args;
use crate::args::parse_tokens;
use crate::args::EnvPair;
use crate::args::LaunchRequest;
use crate::args::ParseError;
use crate::args::ReqModel;
use vstd::prelude::*;

verus! {

/// Everything needed to spawn the child: the resolved executable, its
/// arguments (the pass-through tail minus its first element), and the
/// environment overrides.
#[derive(Debug)]
pub struct LaunchPlan {
    pub exe: String,
    pub args: Vec<String>,
    pub env: Vec<EnvPair>,
}

/// `LaunchPlan` with its strings abstracted to character sequences.
#[verifier::ext_equal]
pub struct PlanModel {
    pub exe: Seq<char>,
    pub args: Seq<Seq<char>>,
    pub env: Seq<(Seq<char>, Seq<char>)>,
}

impl View for LaunchPlan {
    type V = PlanModel;

    open spec fn view(&self) -> PlanModel {
        PlanModel { exe: self.exe@, args: self.args.deep_view(), env: self.env.deep_view() }
    }
}

/// The executable a request selects: the override if one was given, else
/// the first pass-through token (the executable Steam meant to run).
pub open spec fn resolved_exe(m: ReqModel) -> Seq<char> {
    match m.custom_exe {
        Some(c) => c,
        None => m.tail[0],
    }
}

/// Resolve a request into a launch plan. `None` exactly when the
/// pass-through tail is empty (nothing to run). The tail's first element —
/// the original executable — is always dropped from the forwarded
/// arguments, whether or not an override replaces it.
pub fn resolve(req: LaunchRequest) -> (r: Option<LaunchPlan>)
    ensures
        r is None <==> req@.tail.len() == 0,
        r matches Some(p) ==> {
            &&& p@.exe == resolved_exe(req@)
            &&& p@.args == req@.tail.skip(1)
            &&& p@.env == req@.env
        },
{
    let ghost rm = req@;
    let LaunchRequest { env, custom_exe, steam_command } = req;
    let mut tail = steam_command;
    let ghost tail0 = tail@;
    if tail.len() == 0 {
        return None;
    }
    let original = tail.remove(0);
    let exe = match custom_exe {
        Some(c) => c,
        None => original,
    };
    let plan = LaunchPlan { exe, args: tail, env };
    proof {
        assert forall|k: int|
            0 <= k < plan.args.deep_view().len() implies plan.args.deep_view()[k] == rm.tail.skip(
            1,
        )[k] by {
            assert(plan.args@[k] == tail0[k + 1]);
        }
        assert(plan.args.deep_view() =~= rm.tail.skip(1));
    }
    Some(plan)
}

/// One planned invocation: everything the launcher decides before any
/// process is spawned.
pub enum Invocation {
    /// Spawn this plan, then forward the child's exit code.
    Launch(LaunchPlan),
    /// The pass-through tail was empty — Steam's `%command%` substitution
    /// is missing. Report the misconfiguration; nothing is spawned.
    EmptyTail,
    /// The arguments do not fit the grammar; nothing is spawned.
    BadArgs(ParseError),
}

/// Decide a whole invocation from the launcher's argument vector (the
/// arguments after the program name): parse, then resolve. A `Launch` plan
/// comes back exactly when the arguments parse and the pass-through tail
/// names an executable.
pub fn plan_invocation(v: &Vec<String>) -> (r: Invocation)
    ensures
        match r {
            Invocation::Launch(p) => parse_tokens(v.deep_view()) matches Ok(m) && m.tail.len() > 0
                && p@.exe == resolved_exe(m) && p@.args == m.tail.skip(1) && p@.env == m.env,
            Invocation::EmptyTail => parse_tokens(v.deep_view()) matches Ok(m) && m.tail.len()
                == 0,
            Invocation::BadArgs(e) => parse_tokens(v.deep_view()) matches Err(em) && em == e@,
        },
{
    match parse_args(v) {
        Err(e) => Invocation::BadArgs(e),
        Ok(req) => match resolve(req) {
            None => Invocation::EmptyTail,
            Some(p) => Invocation::Launch(p),
        },
    }
}

/// How the child ended: a normal exit with a code, or a signal, which
/// leaves no code.
#[derive(Debug)]
pub enum ChildStatus {
    Exited(i32),
    Signaled,
}

/// The exit code the launcher forwards. A child exit code — zero or not —
/// passes through exactly, never wrapped or remapped; a signal-terminated
/// child yields none, and the launcher then just returns.
pub fn forwarded_exit_code(status: &ChildStatus) -> (r: Option<i32>)
    ensures
        r == (match *status {
            ChildStatus::Exited(n) => Some(n),
            ChildStatus::Signaled => None::<i32>,
        }),
{
    match status {
        ChildStatus::Exited(n) => Some(*n),
        ChildStatus::Signaled => None,
    }
}

} // verus!
