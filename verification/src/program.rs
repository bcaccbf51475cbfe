//! What comes of calling another program.
use vstd::prelude::*;

verus! {

/// What came of calling a program.
#[derive(Debug)]
pub enum Outcome {
    /// The program could not be run.
    NotRun,
    /// The program has ended.
    Ended {
        success: bool,
        /// How it has ended, in words.
        status: String,
        stdout: String,
        stderr: String,
    },
}

impl Outcome {
    /// Whether the program was run and has ended well.
    pub open spec fn succeeded(self) -> bool {
        self matches Outcome::Ended { success, .. } && success
    }

    /// What the program has written, or the message for its failure.
    pub open spec fn output(self, program: Seq<char>) -> Result<Seq<char>, Seq<char>> {
        match self {
            Outcome::NotRun => Err("failed to execute "@ + program),
            Outcome::Ended { success, status, stdout, stderr } => if success {
                Ok(stdout@)
            } else {
                Err(program + " exited with status "@ + status@ + ": "@ + stderr@)
            },
        }
    }
}

/// Whether the result is the one that is expected, by its views.
pub open spec fn is_output(
    r: Result<String, String>,
    expected: Result<Seq<char>, Seq<char>>,
) -> bool {
    match expected {
        Ok(s) => r matches Ok(t) && t@ == s,
        Err(m) => r matches Err(n) && n@ == m,
    }
}

/// What the program has written, where it has succeeded.
pub fn output_of(program: &str, outcome: Outcome) -> (r: Result<String, String>)
    ensures
        is_output(r, outcome.output(program@)),
        r is Ok <==> outcome.succeeded(),
{
    match outcome {
        Outcome::NotRun => {
            let mut m = String::from_str("failed to execute ");
            m.append(program);
            Err(m)
        },
        Outcome::Ended { success, status, stdout, stderr } => {
            if success {
                Ok(stdout)
            } else {
                let mut m = String::from_str(program);
                m.append(" exited with status ");
                m.append(status.as_str());
                m.append(": ");
                m.append(stderr.as_str());
                Err(m)
            }
        },
    }
}

/// A program that has succeeded gives what it has written, and one that has not gives a message
/// that names it and, where it has run, says how it has ended and what it has complained of.
pub proof fn programs_give_their_output(program: Seq<char>, outcome: Outcome)
    ensures
        outcome.succeeded() <==> outcome.output(program) is Ok,
        outcome is NotRun ==> outcome.output(program) == Err::<Seq<char>, Seq<char>>(
            "failed to execute "@ + program,
        ),
        outcome matches Outcome::Ended { success, status, stdout, stderr } ==> {
            &&& success ==> outcome.output(program) == Ok::<Seq<char>, Seq<char>>(stdout@)
            &&& !success ==> outcome.output(program) == Err::<Seq<char>, Seq<char>>(
                program + " exited with status "@ + status@ + ": "@ + stderr@,
            )
        },
{
}

} // verus!
