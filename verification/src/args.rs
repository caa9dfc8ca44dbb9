//! What a run is asked to do: which engine, which query.
//!
//! The command line may name both. What it leaves open the user is asked
//! for, the engine first. Asking is the caller's work: [`SearchArgs::parse`]
//! says what to ask next, and what came of it all.

use crate::engines::{lookup, EngineView, Engines, SearchEngine};
use crate::error::{SearchError, SearchErrorView};
use crate::template::built_url;
use crate::text::{trim, trimmed};
use vstd::prelude::*;
use vstd::string::StringExecFns;

verus! {

/// The engine and the query of one run.
#[derive(Debug)]
pub struct SearchArgs {
    pub engine_name: String,
    pub query: String,
}

/// What the user said when asked for something.
#[derive(Debug)]
pub enum Answer {
    /// The user has not been asked.
    Unasked,
    /// The user gave this.
    Given(String),
    /// The user was asked and gave nothing.
    Declined,
}

/// Why a run has no engine or no query.
#[derive(Clone, Copy, Debug, PartialEq, Eq)]
pub enum ArgsError {
    NoEngine,
    NoQuery,
}

/// What is to happen next on the way to engine and query.
#[derive(Debug)]
pub enum ArgsStep {
    /// Let the user pick an engine, and come back with the answer.
    PickEngine,
    /// Ask the user for the query, and come back with the answer.
    AskQuery,
    /// Engine and query are known.
    Done(SearchArgs),
    /// The user was asked and gave nothing.
    Failed(ArgsError),
}

/// An `Answer` by what it carries.
pub enum AnswerView {
    Unasked,
    Given(Seq<char>),
    Declined,
}

/// An `ArgsStep` by what it carries.
pub enum ArgsStepView {
    PickEngine,
    AskQuery,
    Done { engine_name: Seq<char>, query: Seq<char> },
    Failed(ArgsError),
}

impl View for Answer {
    type V = AnswerView;

    open spec fn view(&self) -> AnswerView {
        match self {
            Answer::Unasked => AnswerView::Unasked,
            Answer::Given(text) => AnswerView::Given(text@),
            Answer::Declined => AnswerView::Declined,
        }
    }
}

impl View for ArgsStep {
    type V = ArgsStepView;

    open spec fn view(&self) -> ArgsStepView {
        match self {
            ArgsStep::PickEngine => ArgsStepView::PickEngine,
            ArgsStep::AskQuery => ArgsStepView::AskQuery,
            ArgsStep::Done(args) => ArgsStepView::Done {
                engine_name: args.engine_name@,
                query: args.query@,
            },
            ArgsStep::Failed(e) => ArgsStepView::Failed(*e),
        }
    }
}

/// The word at position `at` of the command line if there is one, else what
/// the user answered.
pub open spec fn word_or(args: Seq<Seq<char>>, at: int, answer: AnswerView) -> AnswerView {
    if at < args.len() {
        AnswerView::Given(args[at])
    } else {
        answer
    }
}

/// The next step. The command line is the program's name, then the engine,
/// then the query; what stands after them is not read. The engine is settled
/// before the query is asked for.
pub open spec fn next_step(
    args: Seq<Seq<char>>,
    picked: AnswerView,
    typed: AnswerView,
) -> ArgsStepView {
    match word_or(args, 1, picked) {
        AnswerView::Unasked => ArgsStepView::PickEngine,
        AnswerView::Declined => ArgsStepView::Failed(ArgsError::NoEngine),
        AnswerView::Given(engine_name) => match word_or(args, 2, typed) {
            AnswerView::Unasked => ArgsStepView::AskQuery,
            AnswerView::Declined => ArgsStepView::Failed(ArgsError::NoQuery),
            AnswerView::Given(query) => ArgsStepView::Done { engine_name, query },
        },
    }
}

/// What a line of input answers: the line without the white space around
/// it, or nothing where that leaves nothing.
pub open spec fn answer_of(line: Seq<char>) -> Option<Seq<char>> {
    if trimmed(line).len() == 0 {
        None
    } else {
        Some(trimmed(line))
    }
}

/// The text that tells the user how the program is called, under `err`.
pub open spec fn usage_of(err: Seq<char>) -> Seq<char> {
    err + "\n\nUsage:\n    search <engine> <query>\n"@
}

/// What `args.engine_name` and `args.query` come to in the catalog `c`: the
/// engine of that name with the URL for the query, or the name that no
/// engine has.
pub open spec fn resolved(c: Seq<EngineView>, engine_name: Seq<char>, query: Seq<char>) -> Result<
    (EngineView, Seq<char>),
    SearchErrorView,
> {
    match lookup(c, engine_name) {
        Some(engine) => Ok((engine, built_url(engine.url_fragment, query))),
        None => Err(SearchErrorView::EngineNotFound(engine_name)),
    }
}

/// A run whose command line names no engine, and whose user picked none,
/// fails before any query is asked for and before any URL is built.
pub proof fn lemma_no_engine(args: Seq<Seq<char>>, typed: AnswerView)
    requires
        args.len() <= 1,
    ensures
        next_step(args, AnswerView::Declined, typed) == ArgsStepView::Failed(ArgsError::NoEngine),
{
}

impl ArgsError {
    /// The error in words, for the user.
    pub fn message(&self) -> (text: &'static str)
        ensures
            text@ == match self {
                ArgsError::NoEngine => "No valid engine specified"@,
                ArgsError::NoQuery => "No valid query specified"@,
            },
    {
        match self {
            ArgsError::NoEngine => "No valid engine specified",
            ArgsError::NoQuery => "No valid query specified",
        }
    }
}

impl Answer {
    /// The answer that an asking came back with.
    pub fn from_option(reply: Option<String>) -> (r: Answer)
        ensures
            r@ == match reply {
                Some(text) => AnswerView::Given(text@),
                None => AnswerView::Declined,
            },
    {
        match reply {
            Some(text) => Answer::Given(text),
            None => Answer::Declined,
        }
    }
}

impl SearchArgs {
    /// Says what is to happen next: `args` is the command line, `picked`
    /// what the user answered when asked for the engine, `typed` what the
    /// user answered when asked for the query.
    pub fn parse(args: &Vec<String>, picked: &Answer, typed: &Answer) -> (r: ArgsStep)
        ensures
            r@ == next_step(args@.map_values(|s: String| s@), picked@, typed@),
    {
        let engine_name = if args.len() > 1 {
            args[1].clone()
        } else {
            match picked {
                Answer::Unasked => {
                    return ArgsStep::PickEngine;
                },
                Answer::Declined => {
                    return ArgsStep::Failed(ArgsError::NoEngine);
                },
                Answer::Given(name) => name.clone(),
            }
        };
        let query = if args.len() > 2 {
            args[2].clone()
        } else {
            match typed {
                Answer::Unasked => {
                    return ArgsStep::AskQuery;
                },
                Answer::Declined => {
                    return ArgsStep::Failed(ArgsError::NoQuery);
                },
                Answer::Given(text) => text.clone(),
            }
        };
        ArgsStep::Done(SearchArgs { engine_name, query })
    }
}

/// Reads the user's answer out of a line of input.
pub fn get_input(line: &str) -> (r: Option<String>)
    ensures
        match r {
            Some(text) => answer_of(line@) == Some(text@),
            None => answer_of(line@) is None,
        },
{
    let kept = trim(line);
    if kept.unicode_len() == 0 {
        None
    } else {
        Some(String::from_str(kept))
    }
}

/// The text that tells the user how the program is called, under `err`.
pub fn usage(err: &str) -> (text: String)
    ensures
        text@ == usage_of(err@),
{
    String::from_str(err).concat("\n\nUsage:\n    search <engine> <query>\n")
}

/// Finds the engine that `args` names and builds the URL for its query.
pub fn resolve(engines: Engines, args: &SearchArgs) -> (r: Result<(SearchEngine, String), SearchError>)
    ensures
        match resolved(engines@, args.engine_name@, args.query@) {
            Ok((engine, url)) => r matches Ok(found) && found.0@ == engine && found.1@ == url,
            Err(e) => r matches Err(err) && err@ == e,
        },
{
    match engines.select(args.engine_name.as_str()) {
        Some(engine) => {
            let url = engine.build_url(args.query.as_str());
            Ok((engine, url))
        },
        None => Err(SearchError::EngineNotFound(args.engine_name.clone())),
    }
}

} // verus!
