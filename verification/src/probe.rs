//! The two kinds of probe: how each is called, and how the job behind one can
//! end.
use crate::json::{decode, parsed};
use crate::text::{decimal, write_decimal};
use serde_json::Value;
use vstd::prelude::*;

verus! {

/// The program that reports GPU usage. It keeps running and writes a document
/// per interval.
pub const INTEL_GPU_TOP: &'static str = "intel_gpu_top";

/// The program that reports temperatures. It writes one document and ends.
pub const SENSORS: &'static str = "sensors";

/// Why the job behind a source ended. Every one of these is final: the job is
/// not started again.
#[derive(Debug)]
pub enum JobError {
    /// The process could not be started.
    ProcessSpawn,
    /// The process ended while its output was still being read, or ended as a
    /// failure. `diagnostic` is what it had written to its standard error.
    ProcessExit { diagnostic: String },
    /// Reading from the process failed.
    Read,
    /// The whole output of a probe that had ended was not one document.
    Decode,
    /// The queue to the sampler did not take a document.
    Send,
}

impl Clone for JobError {
    fn clone(&self) -> (r: JobError)
        ensures
            r == *self,
    {
        match self {
            JobError::ProcessSpawn => JobError::ProcessSpawn,
            JobError::ProcessExit { diagnostic } => JobError::ProcessExit {
                diagnostic: diagnostic.clone(),
            },
            JobError::Read => JobError::Read,
            JobError::Decode => JobError::Decode,
            JobError::Send => JobError::Send,
        }
    }
}

/// The text of an error.
pub open spec fn message_text(error: JobError) -> Seq<char> {
    match error {
        JobError::ProcessSpawn => "couldn't spawn child process"@,
        JobError::ProcessExit { diagnostic } => "child exited prematurely: "@ + diagnostic@,
        JobError::Read => "couldn't read from child stdout"@,
        JobError::Decode => "couldn't parse child stdout as json"@,
        JobError::Send => "couldn't send collected value"@,
    }
}

impl JobError {
    /// The error in words, for a log.
    pub fn message(&self) -> (r: String)
        ensures
            r@ == message_text(*self),
    {
        match self {
            JobError::ProcessSpawn => "couldn't spawn child process".to_owned(),
            JobError::ProcessExit { diagnostic } => {
                let mut text = "child exited prematurely: ".to_owned();
                text.append(diagnostic.as_str());
                text
            },
            JobError::Read => "couldn't read from child stdout".to_owned(),
            JobError::Decode => "couldn't parse child stdout as json".to_owned(),
            JobError::Send => "couldn't send collected value".to_owned(),
        }
    }
}

/// The views of a list of strings.
pub open spec fn argument_views(arguments: Seq<String>) -> Seq<Seq<char>> {
    arguments.map_values(|argument: String| argument@)
}

/// The arguments for `intel_gpu_top`: the interval in milliseconds, output as
/// JSON, and the device to watch.
pub open spec fn intel_gpu_top_arguments(interval_ms: u64, device: Seq<char>) -> Seq<Seq<char>> {
    seq!["-s"@, decimal(interval_ms as nat), "-J"@, "-d"@, device]
}

/// The arguments for `sensors`: output as JSON.
pub open spec fn sensors_arguments() -> Seq<Seq<char>> {
    seq!["-j"@]
}

/// The arguments with which `intel_gpu_top` is started.
pub fn intel_gpu_top_args(interval_ms: u64, device: &str) -> (r: Vec<String>)
    ensures
        argument_views(r@) == intel_gpu_top_arguments(interval_ms, device@),
{
    let mut interval = String::new();
    write_decimal(&mut interval, interval_ms);
    assert(interval@ =~= decimal(interval_ms as nat));
    let mut arguments: Vec<String> = Vec::new();
    arguments.push("-s".to_owned());
    arguments.push(interval);
    arguments.push("-J".to_owned());
    arguments.push("-d".to_owned());
    arguments.push(device.to_owned());
    assert(argument_views(arguments@) =~= intel_gpu_top_arguments(interval_ms, device@));
    arguments
}

/// The arguments with which `sensors` is started.
pub fn sensors_args() -> (r: Vec<String>)
    ensures
        argument_views(r@) == sensors_arguments(),
{
    let mut arguments: Vec<String> = Vec::new();
    arguments.push("-j".to_owned());
    assert(argument_views(arguments@) =~= sensors_arguments());
    arguments
}

/// What a probe that has run to its end leaves: its document, if it ended well
/// and its whole output is one document.
///
/// How it ended is looked at first: after a failure the output is not decoded,
/// and the error carries `diagnostic`, the text it wrote to its standard error.
pub fn complete_output(success: bool, stdout: &[u8], diagnostic: String) -> (r: Result<
    Value,
    JobError,
>)
    ensures
        !success ==> r == Err::<Value, JobError>(JobError::ProcessExit { diagnostic }),
        success && parsed(stdout@) is Some ==> r == Ok::<Value, JobError>(parsed(stdout@)->0),
        success && parsed(stdout@) is None ==> r == Err::<Value, JobError>(JobError::Decode),
{
    if !success {
        return Err(JobError::ProcessExit { diagnostic });
    }
    match decode(stdout) {
        Ok(doc) => Ok(doc),
        Err(_) => Err(JobError::Decode),
    }
}

} // verus!
