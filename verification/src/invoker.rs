//! The activation invoker's decision logic: what command an activation
//! runs, and how the outcome of the external process is classified and
//! reported. The process itself is spawned by the shell around the library,
//! which feeds the outcome back in as a plain value.

use vstd::prelude::*;
use vstd::string::StringExecFns;
use vstd::utf8::{encode_utf8, valid_utf8};

use crate::gadget::{spec_module_arguments, spec_module_name, Gadget, GadgetV};

verus! {

/// What an activation request comes to: nothing, because no activation
/// command is configured, or one run of the configured command.
pub enum ActivationPlan {
    NotConfigured,
    Run { program: String, arguments: Vec<String> },
}

/// Decide what a selection activates. Exactly when no activation command is
/// configured, nothing is to be run and the plan says so; otherwise the
/// configured command is to be run with the module name first and the
/// module arguments following in order.
pub fn plan_activation(script: Option<String>, gadget: &Gadget) -> (r: ActivationPlan)
    ensures
        r is NotConfigured <==> script is None,
        script matches Some(s) ==> r matches ActivationPlan::Run { program, arguments }
            && program@ == s@ && arguments.deep_view() == seq![spec_module_name(gadget@)]
            + spec_module_arguments(gadget@),
{
    match script {
        None => ActivationPlan::NotConfigured,
        Some(program) => {
            let mut arguments: Vec<String> = Vec::new();
            arguments.push(gadget.module_name());
            let mut rest = gadget.module_arguments();
            let ghost restv = rest.deep_view();
            arguments.append(&mut rest);
            proof {
                assert(arguments.deep_view() =~= seq![spec_module_name(gadget@)] + restv);
            }
            ActivationPlan::Run { program, arguments }
        },
    }
}

/// How the spawned activation command ended: it could not be started at
/// all, or it finished with a success flag and captured output streams.
pub enum SpawnOutcome {
    CouldNotStart,
    Finished { success: bool, stdout: Vec<u8>, stderr: Vec<u8> },
}

/// The user-visible outcome of one activation request.
pub enum ActivationReport {
    /// No activation command is configured; nothing was run.
    NotConfigured,
    /// The command could not be started; carries the attempted command line.
    CouldNotStart { command: Vec<String> },
    /// The command ran and reported failure; carries its decoded streams.
    CommandFailed { stderr: String, stdout: String },
    /// The command ran and succeeded.
    Mounted,
}

/// An output stream as reported: its text when it decodes as UTF-8, a fixed
/// placeholder when it does not.
pub open spec fn spec_decoded(bytes: Seq<u8>, text: Seq<char>) -> bool {
    if valid_utf8(bytes) {
        encode_utf8(text) == bytes
    } else {
        text == "Binary Output"@
    }
}

/// Relies on `String::from_utf8` (via `Result::ok`): it returns a string
/// exactly when the bytes are valid UTF-8, and that string's UTF-8 encoding
/// is the input unchanged.
#[verifier::external_body]
fn decode_utf8(bytes: Vec<u8>) -> (r: Option<String>)
    ensures
        r is Some <==> valid_utf8(bytes@),
        r matches Some(s) ==> encode_utf8(s@) == bytes@,
{
    String::from_utf8(bytes).ok()
}

/// A captured stream decoded for display, falling back to the placeholder.
fn decode_or_placeholder(bytes: Vec<u8>) -> (r: String)
    ensures
        spec_decoded(bytes@, r@),
{
    match decode_utf8(bytes) {
        Some(s) => s,
        None => String::from_str("Binary Output"),
    }
}

/// Classify how a spawned activation command ended: success is success, a
/// spawn failure keeps the attempted command line for diagnostics, and a
/// failing exit keeps both captured streams, each decoded or replaced by
/// the placeholder.
pub fn classify_outcome(command: Vec<String>, outcome: SpawnOutcome) -> (r: ActivationReport)
    ensures
        outcome is CouldNotStart ==> (r matches ActivationReport::CouldNotStart { command: c }
            && c.deep_view() == command.deep_view()),
        outcome matches SpawnOutcome::Finished { success, stdout, stderr } ==> {
            &&& success ==> r is Mounted
            &&& !success ==> (r matches ActivationReport::CommandFailed { stderr: e, stdout: o }
                && spec_decoded(stderr@, e@) && spec_decoded(stdout@, o@))
        },
{
    match outcome {
        SpawnOutcome::CouldNotStart => ActivationReport::CouldNotStart { command },
        SpawnOutcome::Finished { success, stdout, stderr } => {
            if success {
                ActivationReport::Mounted
            } else {
                ActivationReport::CommandFailed {
                    stderr: decode_or_placeholder(stderr),
                    stdout: decode_or_placeholder(stdout),
                }
            }
        },
    }
}

/// The words of a command line joined with single spaces.
pub open spec fn spec_join_spaces(parts: Seq<Seq<char>>) -> Seq<char>
    decreases parts.len(),
{
    if parts.len() == 0 {
        Seq::<char>::empty()
    } else if parts.len() == 1 {
        parts[0]
    } else {
        parts[0] + seq![' '] + spec_join_spaces(parts.skip(1))
    }
}

proof fn lemma_join_split(parts: Seq<Seq<char>>, i: int)
    requires
        0 < i < parts.len(),
    ensures
        spec_join_spaces(parts) == spec_join_spaces(parts.take(i)) + seq![' ']
            + spec_join_spaces(parts.skip(i)),
    decreases i,
{
    if i == 1 {
        assert(parts.take(1) =~= seq![parts[0]]);
        assert(spec_join_spaces(seq![parts[0]]) == parts[0]);
    } else {
        lemma_join_split(parts.skip(1), i - 1);
        assert(parts.skip(1).take(i - 1) =~= parts.take(i).skip(1));
        assert(parts.skip(1).skip(i - 1) =~= parts.skip(i));
        assert(parts.take(i).len() == i);
        assert(parts.take(i)[0] == parts[0]);
        assert(spec_join_spaces(parts.take(i)) == parts.take(i)[0] + seq![' ']
            + spec_join_spaces(parts.take(i).skip(1)));
        assert(spec_join_spaces(parts) == parts[0] + seq![' '] + spec_join_spaces(parts.skip(1)));
        assert(parts[0] + seq![' '] + (spec_join_spaces(parts.take(i).skip(1)) + seq![' ']
            + spec_join_spaces(parts.skip(i))) =~= (parts[0] + seq![' ']
            + spec_join_spaces(parts.take(i).skip(1))) + seq![' ']
            + spec_join_spaces(parts.skip(i)));
    }
}

/// Join the words of a command line with single spaces, for diagnostics.
pub fn join_spaces(parts: &Vec<String>) -> (r: String)
    ensures
        r@ == spec_join_spaces(parts.deep_view()),
{
    let n = parts.len();
    if n == 0 {
        return String::new();
    }
    let mut r = parts[0].clone();
    let mut i: usize = 1;
    proof {
        assert(parts.deep_view().take(1) =~= seq![parts.deep_view()[0]]);
    }
    while i < n
        invariant
            n == parts@.len(),
            n == parts.deep_view().len(),
            1 <= i <= n,
            r@ == spec_join_spaces(parts.deep_view().take(i as int)),
        decreases n - i,
    {
        r.append(" ");
        r.append(parts[i].as_str());
        proof {
            let dv = parts.deep_view();
            reveal_strlit(" ");
            assert(" "@ =~= seq![' ']);
            lemma_join_split(dv.take(i as int + 1), i as int);
            assert(dv.take(i as int + 1).take(i as int) =~= dv.take(i as int));
            assert(dv.take(i as int + 1).skip(i as int) =~= seq![dv[i as int]]);
            assert(spec_join_spaces(seq![dv[i as int]]) == dv[i as int]);
            assert(r@ =~= spec_join_spaces(dv.take(i as int + 1)));
        }
        i += 1;
    }
    proof {
        assert(parts.deep_view().take(n as int) =~= parts.deep_view());
    }
    r
}

impl ActivationReport {
    /// The log line an outcome surfaces as; the texts are fixed, with the
    /// attempted command line or the captured streams spliced in.
    pub fn message(&self) -> (r: String)
        ensures
            self is NotConfigured ==> r@ == "Missing MODPROBE_SCRIPT"@,
            self matches ActivationReport::CouldNotStart { command } ==> r@
                == "Could not run execution command: "@ + spec_join_spaces(command.deep_view()),
            self matches ActivationReport::CommandFailed { stderr, stdout } ==> r@
                == "Could not mount image: \n\nError:\n "@ + stderr@ + "\n\nOutput: "@ + stdout@,
            self is Mounted ==> r@ == "Mounted image"@,
    {
        match self {
            ActivationReport::NotConfigured => String::from_str("Missing MODPROBE_SCRIPT"),
            ActivationReport::CouldNotStart { command } => {
                let mut r = String::from_str("Could not run execution command: ");
                r.append(join_spaces(command).as_str());
                r
            },
            ActivationReport::CommandFailed { stderr, stdout } => {
                let mut r = String::from_str("Could not mount image: \n\nError:\n ");
                r.append(stderr.as_str());
                r.append("\n\nOutput: ");
                r.append(stdout.as_str());
                r
            },
            ActivationReport::Mounted => String::from_str("Mounted image"),
        }
    }
}

} // verus!
