//! Where a server's identity comes from: a key file, a key on the command line,
//! the state directory, or chance. Reading and writing files is left to the
//! caller, who is told what to do next.
use crate::crypto::{
    is_key_hex, key_from_hex, key_hex, key_of_hex, key_to_hex, law_hex_keys_read_back,
    StaticKeypair,
};
use crate::primitives::x25519_public;
use crate::text::trimmed;
use vstd::prelude::*;
use vstd::string::*;

verus! {

/// What to do next on the way to an identity.
pub enum IdentityStep {
    /// Read the key file.
    ReadKeyFile,
    /// Read the identity in the state directory.
    ReadState,
    /// Write this secret to the state directory, where nothing must be yet.
    WriteState(StaticKeypair, String),
    /// Read the identity in the state directory that another instance wrote.
    RereadState,
    /// Use this identity.
    Done(StaticKeypair),
    /// Give up, with this message.
    Fail(&'static str),
}

/// What came of writing to the state directory.
#[derive(Clone, Copy, Debug, PartialEq, Eq, Structural)]
pub enum WriteOutcome {
    Written,
    /// Another instance was faster.
    Existed,
    Failed,
}

/// Whether a step uses the identity written in `text`, or gives up with
/// `complaint` where none is written there.
pub open spec fn settled_by(step: IdentityStep, text: Seq<char>, complaint: Seq<char>) -> bool {
    if is_key_hex(trimmed(text)) {
        &&& step is Done
        &&& step->Done_0.wf()
        &&& step->Done_0.secret_key() == key_of_hex(trimmed(text))
    } else {
        step is Fail && step->Fail_0@ == complaint
    }
}

/// The identity written in `text`, or a complaint.
fn settle(text: &str, complaint: &'static str) -> (step: IdentityStep)
    ensures
        settled_by(step, text@, complaint@),
{
    match key_from_hex(text) {
        Some(secret) => IdentityStep::Done(StaticKeypair::from_secret_bytes(secret)),
        None => IdentityStep::Fail(complaint),
    }
}

/// The first step: a key file goes before a key on the command line, which goes
/// before the state directory; without any of them the identity is left to
/// chance.
pub fn start(has_key_file: bool, static_key: Option<&str>, has_state_dir: bool) -> (step:
    IdentityStep)
    ensures
        if has_key_file {
            step is ReadKeyFile
        } else if static_key is Some {
            settled_by(
                step,
                static_key->Some_0@,
                "--static-key must be 64 hex chars (32 bytes)"@,
            )
        } else if has_state_dir {
            step is ReadState
        } else {
            step is Done && step->Done_0.wf()
        },
{
    if has_key_file {
        return IdentityStep::ReadKeyFile;
    }
    if let Some(text) = static_key {
        return settle(text, "--static-key must be 64 hex chars (32 bytes)");
    }
    if has_state_dir {
        return IdentityStep::ReadState;
    }
    IdentityStep::Done(StaticKeypair::generate())
}

/// The step after the key file was read.
pub fn key_file_read(text: &str) -> (step: IdentityStep)
    ensures
        settled_by(step, text@, "--static-key-file must contain 64 hex chars (32 bytes)"@),
{
    settle(text, "--static-key-file must contain 64 hex chars (32 bytes)")
}

/// The step after the state directory was read; where no identity is there, a
/// new one is to be written.
pub fn state_read(text: Option<&str>) -> (step: IdentityStep)
    ensures
        match text {
            Some(t) => settled_by(
                step,
                t@,
                "corrupt mixtor_identity (expected 64 hex chars) in PT state dir"@,
            ),
            None => step is WriteState && step->WriteState_0.wf() && step->WriteState_1@ == key_hex(
                step->WriteState_0.secret_key(),
            ),
        },
{
    match text {
        Some(t) => settle(t, "corrupt mixtor_identity (expected 64 hex chars) in PT state dir"),
        None => {
            let kp = StaticKeypair::generate();
            let secret = kp.secret_bytes();
            let hex = key_to_hex(&secret);
            IdentityStep::WriteState(kp, hex)
        },
    }
}

/// The step after a new identity was to be written: where another instance was
/// faster, its identity is taken, and else the new one is used, kept or not.
pub fn state_written(kp: StaticKeypair, outcome: WriteOutcome) -> (step: IdentityStep)
    ensures
        match outcome {
            WriteOutcome::Existed => step is RereadState,
            _ => step == IdentityStep::Done(kp),
        },
{
    match outcome {
        WriteOutcome::Existed => IdentityStep::RereadState,
        WriteOutcome::Written => IdentityStep::Done(kp),
        WriteOutcome::Failed => IdentityStep::Done(kp),
    }
}

/// The step after the other instance's identity was read.
pub fn state_reread(text: &str) -> (step: IdentityStep)
    ensures
        settled_by(step, text@, "corrupt mixtor_identity in PT state dir"@),
{
    settle(text, "corrupt mixtor_identity in PT state dir")
}

/// The public key as clients are told it.
pub fn cert_text(kp: &StaticKeypair) -> (s: String)
    ensures
        s@ == key_hex(kp.public_key()),
{
    let public = kp.public_bytes();
    key_to_hex(&public)
}

/// An identity survives restarts: the secret written to the state directory is
/// the one read from it.
pub proof fn law_identities_survive_restarts(secret: Seq<u8>, step: IdentityStep, complaint: Seq<char>)
    requires
        secret.len() == 32,
        settled_by(step, key_hex(secret), complaint),
    ensures
        step is Done,
        step->Done_0.secret_key() == secret,
        step->Done_0.public_key() == x25519_public(secret),
{
    law_hex_keys_read_back(secret);
}

/// Which texts are an identity: 64 hexadecimal digits, with white space around
/// them or not. Anything else is refused with the complaint.
pub proof fn law_identities_are_hex(step: IdentityStep, text: Seq<char>, complaint: Seq<char>)
    requires
        settled_by(step, text, complaint),
    ensures
        step is Done || step is Fail,
        step is Done <==> is_key_hex(trimmed(text)),
        step is Done ==> trimmed(text).len() == 64 && step->Done_0.secret_key() == key_of_hex(
            trimmed(text),
        ),
        step is Fail ==> step->Fail_0@ == complaint,
{
}

} // verus!
