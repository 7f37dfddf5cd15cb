//! Errors that the engine reports.

use vstd::prelude::*;
use crate::text;

verus! {

/// Everything that can go wrong inside the engine.
///
/// Paths, action names, and command fragments are carried as plain strings.
/// I/O and parse failures met while reading files live with the callers that
/// do the reading; they wrap these values.
#[derive(Debug)]
pub enum Error {
    /// A directory was named that is not present in the project's values.
    DirectoryNotFound(String),
    /// The value of a directory does not contain the given JSON pointer.
    JSONPointerNotFound(String, String),
    /// Two values of the named directory could not be ordered.
    CannotCompareInclude(String),
    /// Two actions share a name but disagree on `previous_actions`.
    DuplicateActionsDifferentPreviousActions(String),
    /// Two actions share a name but disagree on `products`.
    DuplicateActionsDifferentProducts(String),
    /// An action names a previous action that does not exist.
    PreviousActionNotFound(String, String),
    /// The action at the given index has no name.
    ActionMissingName(usize),
    /// The named action has no command.
    ActionMissingCommand(String),
    /// The default action sets `from`.
    DefaultActionSetsFrom,
    /// The action referenced by `from` itself sets `from`.
    RecursiveFrom(String),
    /// The action referenced by `from` does not exist.
    FromActionNotFound(String),
    /// An action's command uses both directory templates.
    ActionContainsMultipleTemplates(String),
    /// An action's command uses no directory template.
    ActionContainsNoTemplate(String),
    /// A launcher required by an action is not configured.
    LauncherNotFound(String, String),
    /// A launcher has no `default` entry.
    LauncherMissingDefault(String),
    /// An action requests more than one process but no process launcher.
    NoProcessLauncher(String, usize),
    /// An action names more than one process launcher.
    TooManyProcessLaunchers(String),
    /// No cluster with the given name is configured.
    ClusterNameNotFound(String),
    /// No configured cluster identifies the current environment.
    ClusterNotFound,
    /// No partition with the given name exists on the cluster.
    PartitionNameNotFound(String),
    /// No partition accepts the job; the payload collects the reasons.
    PartitionNotFound(String),
    /// A cache or staging file could not be decoded.
    PostcardParse(String),
    /// A cache could not be encoded.
    PostcardSerialize(String),
    /// A subprocess produced output that could not be understood.
    UnexpectedOutput(String, String),
    /// Executing an action failed; the payload describes how.
    ExecuteAction(String, String),
    /// Submitting an action failed; the payload describes how.
    SubmitAction(String, String),
    /// The queue query failed; the payloads describe how.
    ExecuteSqueue(String, String),
    /// The user interrupted the run.
    Interrupted,
}

impl Error {
    /// A human-readable description of the error.
    pub fn message(&self) -> String {
        let mut m = String::new();
        match self {
            Error::DirectoryNotFound(d) => {
                text::push_str(&mut m, "Directory '");
                text::push_str(&mut m, d.as_str());
                text::push_str(&mut m, "' not found in workspace.");
            },
            Error::JSONPointerNotFound(d, p) => {
                text::push_str(&mut m, "The value in directory '");
                text::push_str(&mut m, d.as_str());
                text::push_str(&mut m, "' does not contain the JSON pointer '");
                text::push_str(&mut m, p.as_str());
                text::push_str(&mut m, "'.");
            },
            Error::CannotCompareInclude(d) => {
                text::push_str(&mut m, "Cannot compare values while checking directory '");
                text::push_str(&mut m, d.as_str());
                text::push_str(&mut m, "'.");
            },
            Error::DuplicateActionsDifferentPreviousActions(a) => {
                text::push_str(&mut m, "Duplicate definitions of action '");
                text::push_str(&mut m, a.as_str());
                text::push_str(&mut m, "' must have the same `previous_actions`.");
            },
            Error::DuplicateActionsDifferentProducts(a) => {
                text::push_str(&mut m, "Duplicate definitions of action '");
                text::push_str(&mut m, a.as_str());
                text::push_str(&mut m, "' must have the same `products`.");
            },
            Error::PreviousActionNotFound(p, a) => {
                text::push_str(&mut m, "Previous action '");
                text::push_str(&mut m, p.as_str());
                text::push_str(&mut m, "' not found in action '");
                text::push_str(&mut m, a.as_str());
                text::push_str(&mut m, "'.");
            },
            Error::ActionMissingName(i) => {
                text::push_str(&mut m, "The action with index ");
                text::push_dec_u64(*i as u64, &mut m);
                text::push_str(&mut m, " is missing `name`.");
            },
            Error::ActionMissingCommand(a) => {
                text::push_str(&mut m, "Action '");
                text::push_str(&mut m, a.as_str());
                text::push_str(&mut m, "' is missing `command`.");
            },
            Error::DefaultActionSetsFrom => {
                text::push_str(&mut m, "The default action must not set `from`.");
            },
            Error::RecursiveFrom(a) => {
                text::push_str(&mut m, "The action '");
                text::push_str(&mut m, a.as_str());
                text::push_str(&mut m, "' referenced by `from` must not set `from` itself.");
            },
            Error::FromActionNotFound(a) => {
                text::push_str(&mut m, "Action '");
                text::push_str(&mut m, a.as_str());
                text::push_str(&mut m, "' referenced by `from` not found.");
            },
            Error::ActionContainsMultipleTemplates(a) => {
                text::push_str(
                    &mut m,
                    "Use '{directory}' or '{directories}', not both in the command of action '",
                );
                text::push_str(&mut m, a.as_str());
                text::push_str(&mut m, "'.");
            },
            Error::ActionContainsNoTemplate(a) => {
                text::push_str(
                    &mut m,
                    "Use '{directory}' or '{directories}' in the command of action '",
                );
                text::push_str(&mut m, a.as_str());
                text::push_str(&mut m, "'.");
            },
            Error::LauncherNotFound(l, a) => {
                text::push_str(&mut m, "Launcher '");
                text::push_str(&mut m, l.as_str());
                text::push_str(&mut m, "' not found: Required by action '");
                text::push_str(&mut m, a.as_str());
                text::push_str(&mut m, "'.");
            },
            Error::LauncherMissingDefault(l) => {
                text::push_str(&mut m, "Launcher '");
                text::push_str(&mut m, l.as_str());
                text::push_str(&mut m, "' does not contain a default configuration.");
            },
            Error::NoProcessLauncher(a, n) => {
                text::push_str(&mut m, "No process launcher for action '");
                text::push_str(&mut m, a.as_str());
                text::push_str(&mut m, "' which requests ");
                text::push_dec_u64(*n as u64, &mut m);
                text::push_str(&mut m, " processes.");
            },
            Error::TooManyProcessLaunchers(a) => {
                text::push_str(&mut m, "More than one process launcher for action '");
                text::push_str(&mut m, a.as_str());
                text::push_str(&mut m, "'.");
            },
            Error::ClusterNameNotFound(c) => {
                text::push_str(&mut m, "Cluster '");
                text::push_str(&mut m, c.as_str());
                text::push_str(&mut m, "' not found.");
            },
            Error::ClusterNotFound => {
                text::push_str(&mut m, "No cluster found.");
            },
            Error::PartitionNameNotFound(p) => {
                text::push_str(&mut m, "Partition '");
                text::push_str(&mut m, p.as_str());
                text::push_str(&mut m, "' not found.");
            },
            Error::PartitionNotFound(reason) => {
                text::push_str(&mut m, "No valid partitions:\n");
                text::push_str(&mut m, reason.as_str());
            },
            Error::PostcardParse(f) => {
                text::push_str(&mut m, "Unable to parse '");
                text::push_str(&mut m, f.as_str());
                text::push_str(&mut m, "'.");
            },
            Error::PostcardSerialize(f) => {
                text::push_str(&mut m, "Unable to serialize '");
                text::push_str(&mut m, f.as_str());
                text::push_str(&mut m, "'.");
            },
            Error::UnexpectedOutput(p, o) => {
                text::push_str(&mut m, "Unexpected output from ");
                text::push_str(&mut m, p.as_str());
                text::push_str(&mut m, ": ");
                text::push_str(&mut m, o.as_str());
            },
            Error::ExecuteAction(a, d) => {
                text::push_str(&mut m, "Error encountered while executing action '");
                text::push_str(&mut m, a.as_str());
                text::push_str(&mut m, "': ");
                text::push_str(&mut m, d.as_str());
                text::push_str(&mut m, ".");
            },
            Error::SubmitAction(a, d) => {
                text::push_str(&mut m, "Error encountered while submitting action '");
                text::push_str(&mut m, a.as_str());
                text::push_str(&mut m, "': ");
                text::push_str(&mut m, d.as_str());
                text::push_str(&mut m, ".");
            },
            Error::ExecuteSqueue(d, stderr) => {
                text::push_str(&mut m, "Error encountered while running squeue: ");
                text::push_str(&mut m, d.as_str());
                text::push_str(&mut m, ".\n");
                text::push_str(&mut m, stderr.as_str());
            },
            Error::Interrupted => {
                text::push_str(&mut m, "Interrupted");
            },
        }
        m
    }
}

} // verus!
