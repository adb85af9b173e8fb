//! Building the CLI argument vector for a run of the preinstalled
//! backend: non-interactive JSON output, the model, the agent chosen from
//! the execution mode, the thinking-level variant, and session resumption.

use vstd::prelude::*;
use vstd::string::StringExecFns;
use crate::strutil::str_eq;

verus! {

/// How much reasoning the backend is asked for.
#[derive(Clone, Copy, PartialEq, Eq, Structural, Debug)]
pub enum ThinkingLevel {
    Off,
    Think,
    Megathink,
    Ultrathink,
}

/// The agent flag an execution mode selects: full access for `build` and
/// `yolo`, the read-only plan agent for everything else, the default
/// included.
pub open spec fn agent_args(mode: Option<Seq<char>>) -> Seq<Seq<char>> {
    if mode == Some("build"@) || mode == Some("yolo"@) {
        seq!["--agent"@, "build"@]
    } else {
        seq!["--agent"@, "plan"@]
    }
}

/// The variant flag a thinking level selects; the plain and off levels
/// pass nothing.
pub open spec fn variant_args(level: Option<ThinkingLevel>) -> Seq<Seq<char>> {
    match level {
        Some(ThinkingLevel::Megathink) => seq!["--variant"@, "high"@],
        Some(ThinkingLevel::Ultrathink) => seq!["--variant"@, "max"@],
        _ => Seq::empty(),
    }
}

pub open spec fn model_args(model: Option<Seq<char>>) -> Seq<Seq<char>> {
    match model {
        Some(m) => seq!["--model"@, m],
        None => Seq::empty(),
    }
}

pub open spec fn session_args(session: Option<Seq<char>>) -> Seq<Seq<char>> {
    match session {
        Some(s) => seq!["--session"@, s],
        None => Seq::empty(),
    }
}

/// The full argument vector: non-interactive JSON run, then model, agent,
/// variant, and session resumption, in that order.
pub open spec fn spec_opencode_args(
    session: Option<Seq<char>>,
    model: Option<Seq<char>>,
    mode: Option<Seq<char>>,
    level: Option<ThinkingLevel>,
) -> Seq<Seq<char>> {
    seq!["run"@, "--format"@, "json"@] + model_args(model) + agent_args(mode) + variant_args(level)
        + session_args(session)
}

/// Build the CLI arguments for one run; no environment overrides are
/// needed for this backend.
pub fn build_opencode_args(
    existing_opencode_session_id: Option<&str>,
    model: Option<&str>,
    execution_mode: Option<&str>,
    thinking_level: Option<ThinkingLevel>,
) -> (r: (Vec<String>, Vec<(String, String)>))
    ensures
        r.0.deep_view() == spec_opencode_args(
            match existing_opencode_session_id {
                Some(s) => Some(s@),
                None => None,
            },
            match model {
                Some(m) => Some(m@),
                None => None,
            },
            match execution_mode {
                Some(m) => Some(m@),
                None => None,
            },
            thinking_level,
        ),
        r.1.deep_view() == Seq::<(Seq<char>, Seq<char>)>::empty(),
{
    let mut args: Vec<String> = Vec::new();
    let env_vars: Vec<(String, String)> = Vec::new();
    args.push(String::from_str("run"));
    args.push(String::from_str("--format"));
    args.push(String::from_str("json"));
    match model {
        Some(m) => {
            args.push(String::from_str("--model"));
            args.push(String::from_str(m));
        },
        None => {},
    }
    let build_agent = match execution_mode {
        Some(m) => str_eq(m, "build") || str_eq(m, "yolo"),
        None => false,
    };
    args.push(String::from_str("--agent"));
    if build_agent {
        args.push(String::from_str("build"));
    } else {
        args.push(String::from_str("plan"));
    }
    match thinking_level {
        Some(ThinkingLevel::Megathink) => {
            args.push(String::from_str("--variant"));
            args.push(String::from_str("high"));
        },
        Some(ThinkingLevel::Ultrathink) => {
            args.push(String::from_str("--variant"));
            args.push(String::from_str("max"));
        },
        _ => {},
    }
    match existing_opencode_session_id {
        Some(s) => {
            args.push(String::from_str("--session"));
            args.push(String::from_str(s));
        },
        None => {},
    }
    proof {
        assert(args.deep_view() =~= spec_opencode_args(
            match existing_opencode_session_id {
                Some(s) => Some(s@),
                None => None,
            },
            match model {
                Some(m) => Some(m@),
                None => None,
            },
            match execution_mode {
                Some(m) => Some(m@),
                None => None,
            },
            thinking_level,
        ));
        assert(env_vars.deep_view() =~= Seq::<(Seq<char>, Seq<char>)>::empty());
    }
    (args, env_vars)
}

} // verus!
