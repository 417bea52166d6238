//! Running a pipeline, one decision at a time.
//!
//! The program around this library starts and awaits the processes; after
//! each outcome it asks here what comes next. Stages are started from left to
//! right. The first reads what the server itself reads, each later one what
//! the stage before it writes. Only the last stage is awaited, and only once
//! every stage has started. A stage that cannot be started ends the run at
//! once with an error text as the answer.

use vstd::prelude::*;
use crate::pipeline::{delimiter_at, lemma_single_stage, pipeline_of};
use crate::text::{trim_end, trim_end_len};

verus! {

/// Where a stage reads from.
#[derive(Clone, Copy, Debug, PartialEq, Eq, Structural)]
pub enum StdinSource {
    /// What the server process itself reads.
    Inherited,
    /// What the stage before this one writes.
    PreviousOutput,
}

/// The next thing to do for a pipeline, as plain values.
pub enum StepModel {
    Spawn { stage: int, stdin: StdinSource },
    Wait { stage: int },
    Reply { text: Seq<u8> },
}

/// The next thing to do for a pipeline.
#[derive(Debug)]
pub enum Step {
    /// Start stage `stage`, reading from `stdin`, with its output captured.
    Spawn { stage: usize, stdin: StdinSource },
    /// Await the end of stage `stage` and collect what it wrote.
    Wait { stage: usize },
    /// The run is over: send `text` to the client.
    Reply { text: Vec<u8> },
}

impl View for Step {
    type V = StepModel;

    open spec fn view(&self) -> StepModel {
        match *self {
            Step::Spawn { stage, stdin } => StepModel::Spawn { stage: stage as int, stdin },
            Step::Wait { stage } => StepModel::Wait { stage: stage as int },
            Step::Reply { text } => StepModel::Reply { text: text@ },
        }
    }
}

/// The answer that stands for "no output": one space.
pub open spec fn sentinel() -> Seq<u8> {
    seq![0x20u8]
}

/// The bytes `Error while executing command (`, which open an error text.
pub open spec fn error_opening() -> Seq<u8> {
    seq![
        0x45u8, 0x72u8, 0x72u8, 0x6Fu8, 0x72u8, 0x20u8, 0x77u8, 0x68u8, 0x69u8, 0x6Cu8, 0x65u8,
        0x20u8, 0x65u8, 0x78u8, 0x65u8, 0x63u8, 0x75u8, 0x74u8, 0x69u8, 0x6Eu8, 0x67u8, 0x20u8,
        0x63u8, 0x6Fu8, 0x6Du8, 0x6Du8, 0x61u8, 0x6Eu8, 0x64u8, 0x20u8, 0x28u8,
    ]
}

/// The answer for a failure that the system describes as `description`: the
/// opening words, the description, and a closing bracket.
pub open spec fn error_text(description: Seq<u8>) -> Seq<u8> {
    error_opening() + description + seq![0x29u8]
}

/// The answer for a last stage that wrote `output`: the output without its
/// trailing white space, or the sentinel where nothing is left of it.
pub open spec fn output_text(output: Seq<u8>) -> Seq<u8> {
    if trim_end(output).len() == 0 {
        sentinel()
    } else {
        trim_end(output)
    }
}

/// What comes first for a pipeline: its first stage, reading what the server
/// reads.
pub open spec fn first_step_of() -> StepModel {
    StepModel::Spawn { stage: 0, stdin: StdinSource::Inherited }
}

/// What follows the attempt to start stage `stage` of `total`.
pub open spec fn step_after_spawn(total: int, stage: int, outcome: Result<(), Seq<u8>>) -> StepModel {
    match outcome {
        Err(description) => StepModel::Reply { text: error_text(description) },
        Ok(_) => if stage + 1 < total {
            StepModel::Spawn { stage: stage + 1, stdin: StdinSource::PreviousOutput }
        } else {
            StepModel::Wait { stage }
        },
    }
}

/// The answer after the last stage was awaited.
pub open spec fn reply_after_wait(outcome: Result<Seq<u8>, Seq<u8>>) -> Seq<u8> {
    match outcome {
        Ok(output) => output_text(output),
        Err(description) => error_text(description),
    }
}

/// The steps of a whole run from stage `stage` on, where the first stage that
/// fails to start, if any, is `failing` with the system's `description`, and
/// the last stage is awaited with `waited`.
pub open spec fn run_from(
    total: int,
    stage: int,
    failing: Option<int>,
    description: Seq<u8>,
    waited: Result<Seq<u8>, Seq<u8>>,
) -> Seq<StepModel>
    decreases total - stage,
{
    if stage < 0 || stage >= total {
        Seq::empty()
    } else {
        let outcome: Result<(), Seq<u8>> = if failing == Some(stage) {
            Err(description)
        } else {
            Ok(())
        };
        let next = step_after_spawn(total, stage, outcome);
        match next {
            StepModel::Spawn { .. } => seq![next] + run_from(total, stage + 1, failing, description, waited),
            StepModel::Wait { .. } => seq![next, StepModel::Reply { text: reply_after_wait(waited) }],
            StepModel::Reply { .. } => seq![next],
        }
    }
}

/// The steps of a whole run of a pipeline of `total` stages, from the first
/// step to the answer.
pub open spec fn whole_run(
    total: int,
    failing: Option<int>,
    description: Seq<u8>,
    waited: Result<Seq<u8>, Seq<u8>>,
) -> Seq<StepModel> {
    seq![first_step_of()] + run_from(total, 0, failing, description, waited)
}

/// Where every stage starts, the stages from `stage` on are started in order,
/// each reading from the one before it, the last one is awaited, and the answer
/// is the one for what was awaited.
pub proof fn lemma_run_without_failure(total: int, stage: int, waited: Result<Seq<u8>, Seq<u8>>)
    requires
        0 <= stage < total,
    ensures
        ({
            let run = run_from(total, stage, None, Seq::empty(), waited);
            &&& run.len() == total - stage + 1
            &&& forall|i: int|
                0 <= i < total - stage - 1 ==> #[trigger] run[i] == (StepModel::Spawn {
                    stage: stage + 1 + i,
                    stdin: StdinSource::PreviousOutput,
                })
            &&& run[total - stage - 1] == (StepModel::Wait { stage: total - 1 })
            &&& run[total - stage] == (StepModel::Reply { text: reply_after_wait(waited) })
        }),
    decreases total - stage,
{
    if stage + 1 < total {
        lemma_run_without_failure(total, stage + 1, waited);
        let rest = run_from(total, stage + 1, None, Seq::empty(), waited);
        let run = run_from(total, stage, None, Seq::empty(), waited);
        assert(run == seq![step_after_spawn(total, stage, Ok(()))] + rest);
        assert forall|i: int| 0 <= i < total - stage - 1 implies #[trigger] run[i] == (StepModel::Spawn {
            stage: stage + 1 + i,
            stdin: StdinSource::PreviousOutput,
        }) by {
            if i > 0 {
                assert(run[i] == rest[i - 1]);
            }
        }
        assert(run[total - stage - 1] == rest[total - stage - 2]);
        assert(run[total - stage] == rest[total - stage - 1]);
    }
}

/// Where stage `failing` is the first that does not start, the stages up to
/// it are started in order, no stage is awaited, and the run ends with the
/// error text for that failure.
pub proof fn lemma_run_with_failure(
    total: int,
    stage: int,
    failing: int,
    description: Seq<u8>,
    waited: Result<Seq<u8>, Seq<u8>>,
)
    requires
        0 <= stage <= failing < total,
    ensures
        ({
            let run = run_from(total, stage, Some(failing), description, waited);
            &&& run.len() == failing - stage + 1
            &&& forall|i: int|
                0 <= i < failing - stage ==> #[trigger] run[i] == (StepModel::Spawn {
                    stage: stage + 1 + i,
                    stdin: StdinSource::PreviousOutput,
                })
            &&& run[failing - stage] == (StepModel::Reply { text: error_text(description) })
        }),
    decreases failing - stage,
{
    if stage < failing {
        lemma_run_with_failure(total, stage + 1, failing, description, waited);
        let rest = run_from(total, stage + 1, Some(failing), description, waited);
        let run = run_from(total, stage, Some(failing), description, waited);
        assert(run == seq![step_after_spawn(total, stage, Ok(()))] + rest);
        assert forall|i: int| 0 <= i < failing - stage implies #[trigger] run[i] == (StepModel::Spawn {
            stage: stage + 1 + i,
            stdin: StdinSource::PreviousOutput,
        }) by {
            if i > 0 {
                assert(run[i] == rest[i - 1]);
            }
        }
        assert(run[failing - stage] == rest[failing - stage - 1]);
    }
}

/// A request without a delimiter starts exactly one process, awaits it, and
/// answers with what it wrote, trimmed at its end, or with the sentinel where
/// nothing is left.
pub proof fn lemma_single_stage_run(request: Seq<u8>, output: Seq<u8>)
    requires
        forall|i: int| !delimiter_at(request, i),
    ensures
        pipeline_of(request).len() == 1,
        whole_run(pipeline_of(request).len() as int, None, Seq::empty(), Ok(output)) == seq![
            StepModel::Spawn { stage: 0, stdin: StdinSource::Inherited },
            StepModel::Wait { stage: 0 },
            StepModel::Reply { text: output_text(output) },
        ],
{
    lemma_single_stage(request);
    lemma_run_without_failure(1, 0, Ok(output));
    let run = run_from(1, 0, None, Seq::empty(), Ok(output));
    assert(whole_run(1, None, Seq::empty(), Ok(output)) =~= seq![
        StepModel::Spawn { stage: 0, stdin: StdinSource::Inherited },
        StepModel::Wait { stage: 0 },
        StepModel::Reply { text: output_text(output) },
    ]);
}

/// In a whole run, each stage is started at most once and in order: the
/// `i`-th step of a run without failure starts stage `i`, and the only stage
/// that reads what the server reads is the first.
pub proof fn lemma_whole_run_order(total: int, waited: Result<Seq<u8>, Seq<u8>>, i: int)
    requires
        0 <= i < total,
    ensures
        whole_run(total, None, Seq::empty(), waited).len() == total + 2,
        whole_run(total, None, Seq::empty(), waited)[i] == (StepModel::Spawn {
            stage: i,
            stdin: if i == 0 {
                StdinSource::Inherited
            } else {
                StdinSource::PreviousOutput
            },
        }),
        whole_run(total, None, Seq::empty(), waited)[total] == (StepModel::Wait { stage: total - 1 }),
        whole_run(total, None, Seq::empty(), waited)[total + 1] == (StepModel::Reply {
            text: reply_after_wait(waited),
        }),
{
    lemma_run_without_failure(total, 0, waited);
    let rest = run_from(total, 0, None, Seq::empty(), waited);
    let run = whole_run(total, None, Seq::empty(), waited);
    if i > 0 {
        assert(run[i] == rest[i - 1]);
    }
    assert(run[total] == rest[total - 1]);
    assert(run[total + 1] == rest[total]);
}

/// An answer for output is never empty, so a client never takes it for the
/// end of the connection.
pub proof fn lemma_output_text_nonempty(output: Seq<u8>)
    ensures
        output_text(output).len() >= 1,
        output_text(output).len() == 1 ==> trim_end(output).len() <= 1,
{
}

/// The step that opens the run of a pipeline.
pub fn first_step() -> (step: Step)
    ensures
        step@ == first_step_of(),
{
    Step::Spawn { stage: 0, stdin: StdinSource::Inherited }
}

/// The step that follows the attempt to start stage `stage` of a pipeline of
/// `total` stages. `outcome` is `Ok` where the stage started, and holds the
/// system's description of the failure where it did not.
pub fn after_spawn(total: usize, stage: usize, outcome: Result<(), Vec<u8>>) -> (step: Step)
    requires
        stage < total,
    ensures
        step@ == step_after_spawn(
            total as int,
            stage as int,
            match outcome {
                Ok(_) => Ok(()),
                Err(description) => Err(description@),
            },
        ),
{
    match outcome {
        Err(description) => Step::Reply { text: error_response(description.as_slice()) },
        Ok(_) => {
            if stage + 1 < total {
                Step::Spawn { stage: stage + 1, stdin: StdinSource::PreviousOutput }
            } else {
                Step::Wait { stage }
            }
        },
    }
}

/// The answer once the last stage was awaited. `outcome` holds what the stage
/// wrote, or the system's description of why awaiting it failed.
pub fn after_wait(outcome: Result<Vec<u8>, Vec<u8>>) -> (text: Vec<u8>)
    ensures
        text@ == reply_after_wait(
            match outcome {
                Ok(output) => Ok(output@),
                Err(description) => Err(description@),
            },
        ),
{
    match outcome {
        Ok(output) => output_response(output),
        Err(description) => error_response(description.as_slice()),
    }
}

/// The answer for a last stage that wrote `output`.
pub fn output_response(output: Vec<u8>) -> (text: Vec<u8>)
    ensures
        text@ == output_text(output@),
{
    let mut text = output;
    let n: usize = trim_end_len(text.as_slice());
    if n == 0 {
        let reply: Vec<u8> = vec![0x20u8];
        proof {
            assert(reply@ =~= sentinel());
        }
        reply
    } else {
        text.truncate(n);
        text
    }
}

/// The answer for a failure that the system describes as `description`.
pub fn error_response(description: &[u8]) -> (text: Vec<u8>)
    ensures
        text@ == error_text(description@),
{
    let mut text: Vec<u8> = vec![
        0x45u8, 0x72u8, 0x72u8, 0x6Fu8, 0x72u8, 0x20u8, 0x77u8, 0x68u8, 0x69u8, 0x6Cu8, 0x65u8,
        0x20u8, 0x65u8, 0x78u8, 0x65u8, 0x63u8, 0x75u8, 0x74u8, 0x69u8, 0x6Eu8, 0x67u8, 0x20u8,
        0x63u8, 0x6Fu8, 0x6Du8, 0x6Du8, 0x61u8, 0x6Eu8, 0x64u8, 0x20u8, 0x28u8,
    ];
    proof {
        assert(text@ =~= error_opening());
    }
    let mut i: usize = 0;
    while i < description.len()
        invariant
            i <= description@.len(),
            text@ == error_opening() + description@.subrange(0, i as int),
        decreases description@.len() - i,
    {
        text.push(description[i]);
        proof {
            assert(text@ =~= error_opening() + description@.subrange(0, i + 1));
        }
        i += 1;
    }
    text.push(0x29u8);
    proof {
        assert(description@.subrange(0, i as int) =~= description@);
    }
    text
}

} // verus!
