//! The engine's decisions, from raw launch tokens to a launch plan.
//!
//! The caller around the library performs the outside work in between: it
//! looks a present identifier up, tries each trick of the record against the
//! host, and finally spawns the planned command. Everything the engine
//! decides or computes on the way stands here, with its contract.

use crate::appid;
use crate::cmdline;
use crate::cmdline::FormatError;
use crate::envmap::Env;
use crate::tweaks;
use crate::tweaks::TweakRecord;
use vstd::prelude::*;

verus! {

/// The launch tokens as the command line hands them over: the remainder of
/// the invocation, verbatim, or nothing at all.
pub struct CommandArgs {
    /// The launch command tokens.
    pub command_args: Option<Vec<String>>,
}

/// The reconstructed command string and the identifier found in it, if any.
pub struct Prepared {
    /// The tokens joined back into one shell-style command string.
    pub command: String,
    /// The first embedded application identifier, absent on the passthrough
    /// path.
    pub app_id: Option<String>,
}

/// A planned launch: the program and its arguments, and the variables to
/// lay over the inherited environment.
pub struct Launch {
    /// The tokens to execute; the first one is the program.
    pub argv: Vec<String>,
    /// The synthesized environment entries.
    pub env: Env,
}

/// Reconstructs the command string from the raw tokens and scans it for an
/// application identifier. Fails exactly when there is no token at all.
pub fn prepare(tokens: &Vec<String>) -> (r: Result<Prepared, FormatError>)
    ensures
        r is Err <==> tokens@.len() == 0,
        r is Err ==> r->Err_0 == FormatError::EmptyCommand,
        r is Ok ==> {
            let p = r->Ok_0;
            &&& p.command@ == cmdline::join_spec(cmdline::views(tokens@))
            &&& appid::extraction_ok(
                p.command@,
                match p.app_id {
                    Option::Some(id) => Option::Some(id@),
                    Option::None => Option::None,
                },
            )
            &&& (p.app_id is Some <==> appid::has_marker(p.command@))
        },
{
    let command = match cmdline::join(tokens) {
        Ok(c) => c,
        Err(e) => {
            return Err(e);
        },
    };
    let app_id = appid::extract(command.as_str());
    Ok(Prepared { command, app_id })
}

/// Plans the tweaked launch: splits the command string back into executable
/// tokens and synthesizes the record's environment. Fails on an unterminated
/// quote, and when the split leaves no token to execute.
pub fn plan_launch(record: &TweakRecord, command: &str) -> (r: Result<Launch, FormatError>)
    ensures
        match r {
            Ok(l) => {
                &&& cmdline::split_spec(command@) == Some(cmdline::views(l.argv@))
                &&& l.argv@.len() > 0
                &&& l.env@ == tweaks::synth_env(record.env@, record.settings)
            },
            Err(e) => match cmdline::split_spec(command@) {
                Option::None => e == FormatError::UnterminatedQuote,
                Option::Some(ts) => ts.len() == 0 && e == FormatError::EmptyCommand,
            },
        },
{
    let argv = match cmdline::split(command) {
        Ok(v) => v,
        Err(e) => {
            return Err(e);
        },
    };
    if argv.len() == 0 {
        return Err(FormatError::EmptyCommand);
    }
    let env = tweaks::synthesize(record);
    Ok(Launch { argv, env })
}

/// Plans the passthrough launch: the command split back into executable
/// tokens, with no environment overrides at all. Fails as
/// [`plan_launch`] does.
pub fn plan_passthrough(command: &str) -> (r: Result<Vec<String>, FormatError>)
    ensures
        match r {
            Ok(argv) => {
                &&& cmdline::split_spec(command@) == Some(cmdline::views(argv@))
                &&& argv@.len() > 0
            },
            Err(e) => match cmdline::split_spec(command@) {
                Option::None => e == FormatError::UnterminatedQuote,
                Option::Some(ts) => ts.len() == 0 && e == FormatError::EmptyCommand,
            },
        },
{
    let argv = match cmdline::split(command) {
        Ok(v) => v,
        Err(e) => {
            return Err(e);
        },
    };
    if argv.len() == 0 {
        return Err(FormatError::EmptyCommand);
    }
    Ok(argv)
}

} // verus!
