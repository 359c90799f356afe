//! What a finished command left behind.

use vstd::prelude::*;
use vstd::string::*;

use crate::outside::{from_utf8_lossy, utf8_lossy};
use crate::text::{trim, trimmed};

verus! {

/// The output of a finished command, as text.
pub struct CommandOutput {
    /// Whether the command exited with success.
    pub success: bool,
    /// How the command ended, in words (e.g. "exit status: 1").
    pub status: String,
    pub stdout: String,
    pub stderr: String,
}

/// What a `CommandOutput` holds.
#[verifier::ext_equal]
pub struct OutputView {
    pub success: bool,
    pub status: Seq<char>,
    pub stdout: Seq<char>,
    pub stderr: Seq<char>,
}

impl DeepView for CommandOutput {
    type V = OutputView;

    open spec fn deep_view(&self) -> OutputView {
        OutputView {
            success: self.success,
            status: self.status@,
            stdout: self.stdout@,
            stderr: self.stderr@,
        }
    }
}

impl CommandOutput {
    /// Reads the bytes that a command wrote; what is no UTF-8 among them is replaced.
    pub fn decode(success: bool, status: String, stdout: &Vec<u8>, stderr: &Vec<u8>) -> (output:
        CommandOutput)
        ensures
            output.success == success,
            output.status@ == status@,
            output.stdout@ == utf8_lossy(stdout@),
            output.stderr@ == utf8_lossy(stderr@),
            vstd::utf8::valid_utf8(stdout@) ==> output.stdout@ == vstd::utf8::decode_utf8(stdout@),
            vstd::utf8::valid_utf8(stderr@) ==> output.stderr@ == vstd::utf8::decode_utf8(stderr@),
    {
        CommandOutput {
            success,
            status,
            stdout: from_utf8_lossy(stdout),
            stderr: from_utf8_lossy(stderr),
        }
    }
}

/// What a result tells: its value, or the message of its error.
pub open spec fn told<T: DeepView>(result: Result<T, String>) -> Result<T::V, Seq<char>> {
    match result {
        Ok(value) => Ok(value.deep_view()),
        Err(message) => Err(message@),
    }
}

/// The result of a step that only succeeds or fails.
pub open spec fn step_view(result: Result<(), String>) -> Result<(), Seq<char>> {
    match result {
        Ok(()) => Ok(()),
        Err(message) => Err(message@),
    }
}

/// A command that succeeds, or why it did not: the error to start it, or what it wrote to stderr.
pub open spec fn step_of(run: Result<OutputView, Seq<char>>) -> Result<(), Seq<char>> {
    match run {
        Ok(output) => if output.success {
            Ok(())
        } else {
            Err(trimmed(output.stderr))
        },
        Err(message) => Err(message),
    }
}

/// Judges a command of which only success or failure counts.
pub fn command_result(run: &Result<CommandOutput, String>) -> (result: Result<(), String>)
    ensures
        step_view(result) == step_of(told(*run)),
{
    match run {
        Ok(output) => {
            if output.success {
                Ok(())
            } else {
                Err(trim(output.stderr.as_str()))
            }
        },
        Err(message) => Err(message.clone()),
    }
}

// ---------------------------------------------------------------------------
// Laws

/// A result tells its value or its message, as they are.
pub proof fn law_result_is_told_as_it_is<T: DeepView>(value: T, message: String)
    ensures
        told(Ok::<T, String>(value)) == Ok::<T::V, Seq<char>>(value.deep_view()),
        told(Err::<T, String>(message)) == Err::<T::V, Seq<char>>(message@),
        step_view(Ok(())) == Ok::<(), Seq<char>>(()),
        step_view(Err(message)) == Err::<(), Seq<char>>(message@),
{
}

} // verus!
