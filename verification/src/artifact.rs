//! Archive handling for a category's snapshot directory: the file-system
//! layout of the archive, and the packing and restore plans.
//!
//! Packing compresses the snapshot directory into a tar archive and then
//! encrypts it symmetrically; restoring decrypts and unpacks.  The external
//! tools do the heavy lifting; this module owns the exact invocations and
//! the sequencing policy, as data: the binary executes the planned commands
//! in order and stops at the first failure.

use vstd::prelude::*;
use vstd::string::*;

use crate::text::{str_eq, trim_str, trimmed};

verus! {

/// Supported contexts.
pub const CONTEXTS: [&'static str; 2] = ["Create artifact", "Restore artifact"];

/// Artifact module context configuration.
pub fn choose_context(contexts: [&str; 2], context_arg: Option<String>) -> (r: usize)
    ensures
        r == chosen_context(contexts@[0]@, contexts@[1]@, context_arg),
{
    let p = ArtifactConfiguration::new(contexts);
    p.choose_context(context_arg)
}

/// Artifact module file system configuration.
pub fn fs_config(contexts: [&str; 2], cwd: String, collection: String) -> (r: ArtifactFileConfig)
    ensures
        r.json_collection_path@ == "./.data/output/github/"@ + collection@ + "/"@,
        r.artifact_base_path@ == cwd@ + "/.data/artifact/github/"@,
        r.artifact_file_name@ == "github-"@ + collection@ + ".tar.gz"@,
        r.encrypted_artifact_file_name@ == "github-"@ + collection@ + ".tar.gz.gpg"@,
{
    let p = ArtifactConfiguration::new(contexts);
    p.fs_config(cwd, collection)
}

/// The paths and file names that one category's archive uses.
pub struct ArtifactFileConfig {
    pub json_collection_path: String,
    pub artifact_base_path: String,
    pub artifact_file_name: String,
    pub encrypted_artifact_file_name: String,
}

/// The index of the first context whose name equals the trimmed argument,
/// or `usize::MAX` when none does.
pub open spec fn chosen_context(first: Seq<char>, second: Seq<char>, arg: Option<String>) -> int {
    let inp = match arg {
        Some(v) => trimmed(v@),
        None => Seq::<char>::empty(),
    };
    if first == inp {
        0
    } else if second == inp {
        1
    } else {
        usize::MAX as int
    }
}

/// Context selection and file-system layout for the archive step.
pub struct ArtifactConfiguration<'a> {
    pub contexts: [&'a str; 2],
}

impl<'a> ArtifactConfiguration<'a> {
    /// Program constructor.
    pub fn new(contexts: [&'a str; 2]) -> (r: ArtifactConfiguration<'a>)
        ensures
            r.contexts == contexts,
    {
        ArtifactConfiguration { contexts }
    }

    /// Artifact module context configuration: the index of the context
    /// named by the argument, `usize::MAX` when the argument names none.
    pub fn choose_context(&self, context_arg: Option<String>) -> (r: usize)
        ensures
            r == chosen_context(self.contexts@[0]@, self.contexts@[1]@, context_arg),
    {
        let inp: String = match context_arg {
            Some(v) => trim_str(v.as_str()),
            None => String::new(),
        };
        if str_eq(self.contexts[0], inp.as_str()) {
            0
        } else if str_eq(self.contexts[1], inp.as_str()) {
            1
        } else {
            usize::MAX
        }
    }

    /// Artifact module file system configuration: where the collection's
    /// snapshots live and where its archive goes, relative to `cwd`.
    pub fn fs_config(&self, cwd: String, collection: String) -> (r: ArtifactFileConfig)
        ensures
            r.json_collection_path@ == "./.data/output/github/"@ + collection@ + "/"@,
            r.artifact_base_path@ == cwd@ + "/.data/artifact/github/"@,
            r.artifact_file_name@ == "github-"@ + collection@ + ".tar.gz"@,
            r.encrypted_artifact_file_name@ == "github-"@ + collection@ + ".tar.gz.gpg"@,
    {
        let mut json_collection_path = String::from_str("./.data/output/github/");
        json_collection_path.append(collection.as_str());
        json_collection_path.append("/");

        let mut artifact_base_path = cwd;
        artifact_base_path.append("/.data/artifact/github/");

        let mut artifact_file_name = String::from_str("github-");
        artifact_file_name.append(collection.as_str());
        artifact_file_name.append(".tar.gz");

        let mut encrypted_artifact_file_name = String::from_str("github-");
        encrypted_artifact_file_name.append(collection.as_str());
        encrypted_artifact_file_name.append(".tar.gz.gpg");

        ArtifactFileConfig {
            json_collection_path,
            artifact_base_path,
            artifact_file_name,
            encrypted_artifact_file_name,
        }
    }
}

/// One external-tool invocation, as data: a program and its arguments.
pub struct ToolCommand {
    pub program: String,
    pub args: Vec<String>,
}

/// The packing plan: compress the source directory to the archive path,
/// then encrypt the archive with the passphrase, producing `<path>.gpg`.
/// The commands run in this order; a failure of the first is fatal before
/// anything is encrypted, a failure of the second is fatal and leaves the
/// plaintext archive on disk.
pub fn pack_commands(output_path: &str, source_path: &str, passphrase: &str) -> (r: Vec<
    ToolCommand,
>)
    ensures
        r@.len() == 2,
        r@[0].program@ == "tar"@,
        r@[0].args@.len() == 3,
        r@[0].args@[0]@ == "-czf"@,
        r@[0].args@[1]@ == output_path@,
        r@[0].args@[2]@ == source_path@,
        r@[1].program@ == "gpg"@,
        r@[1].args@.len() == 10,
        r@[1].args@[0]@ == "--batch"@,
        r@[1].args@[1]@ == "--yes"@,
        r@[1].args@[2]@ == "--passphrase"@,
        r@[1].args@[3]@ == passphrase@,
        r@[1].args@[4]@ == "--symmetric"@,
        r@[1].args@[5]@ == "--cipher-algo"@,
        r@[1].args@[6]@ == "aes256"@,
        r@[1].args@[7]@ == "--output"@,
        r@[1].args@[8]@ == output_path@ + ".gpg"@,
        r@[1].args@[9]@ == output_path@,
{
    let mut tar_args: Vec<String> = Vec::new();
    tar_args.push(String::from_str("-czf"));
    tar_args.push(String::from_str(output_path));
    tar_args.push(String::from_str(source_path));
    let tar_cmd = ToolCommand { program: String::from_str("tar"), args: tar_args };

    let mut encrypted_artifact_path = String::from_str(output_path);
    encrypted_artifact_path.append(".gpg");

    let mut gpg_args: Vec<String> = Vec::new();
    gpg_args.push(String::from_str("--batch"));
    gpg_args.push(String::from_str("--yes"));
    gpg_args.push(String::from_str("--passphrase"));
    gpg_args.push(String::from_str(passphrase));
    gpg_args.push(String::from_str("--symmetric"));
    gpg_args.push(String::from_str("--cipher-algo"));
    gpg_args.push(String::from_str("aes256"));
    gpg_args.push(String::from_str("--output"));
    gpg_args.push(encrypted_artifact_path);
    gpg_args.push(String::from_str(output_path));
    let gpg_cmd = ToolCommand { program: String::from_str("gpg"), args: gpg_args };

    let mut r: Vec<ToolCommand> = Vec::new();
    r.push(tar_cmd);
    r.push(gpg_cmd);
    r
}

/// The restore plan: decrypt the `.gpg` file back to the plaintext archive
/// path, then unpack the archive into the working tree.  The commands run
/// in this order; either failure is fatal, and nothing already unpacked is
/// rolled back.
pub fn restore_commands(
    artifact_base_path: &str,
    artifact_file_name: &str,
    encrypted_artifact_file_name: &str,
    passphrase: &str,
) -> (r: Vec<ToolCommand>)
    ensures
        r@.len() == 2,
        r@[0].program@ == "gpg"@,
        r@[0].args@.len() == 8,
        r@[0].args@[0]@ == "--batch"@,
        r@[0].args@[1]@ == "--yes"@,
        r@[0].args@[2]@ == "--passphrase"@,
        r@[0].args@[3]@ == passphrase@,
        r@[0].args@[4]@ == "--decrypt"@,
        r@[0].args@[5]@ == "--output"@,
        r@[0].args@[6]@ == artifact_base_path@ + artifact_file_name@,
        r@[0].args@[7]@ == artifact_base_path@ + encrypted_artifact_file_name@,
        r@[1].program@ == "tar"@,
        r@[1].args@.len() == 4,
        r@[1].args@[0]@ == "-xzf"@,
        r@[1].args@[1]@ == artifact_base_path@ + artifact_file_name@,
        r@[1].args@[2]@ == "--directory"@,
        r@[1].args@[3]@ == "./"@,
{
    let mut artifact_path = String::from_str(artifact_base_path);
    artifact_path.append(artifact_file_name);
    let mut encrypted_artifact_path = String::from_str(artifact_base_path);
    encrypted_artifact_path.append(encrypted_artifact_file_name);

    let mut gpg_args: Vec<String> = Vec::new();
    gpg_args.push(String::from_str("--batch"));
    gpg_args.push(String::from_str("--yes"));
    gpg_args.push(String::from_str("--passphrase"));
    gpg_args.push(String::from_str(passphrase));
    gpg_args.push(String::from_str("--decrypt"));
    gpg_args.push(String::from_str("--output"));
    gpg_args.push(artifact_path.clone());
    gpg_args.push(encrypted_artifact_path);
    let gpg_cmd = ToolCommand { program: String::from_str("gpg"), args: gpg_args };

    let mut tar_args: Vec<String> = Vec::new();
    tar_args.push(String::from_str("-xzf"));
    tar_args.push(artifact_path);
    tar_args.push(String::from_str("--directory"));
    tar_args.push(String::from_str("./"));
    let tar_cmd = ToolCommand { program: String::from_str("tar"), args: tar_args };

    let mut r: Vec<ToolCommand> = Vec::new();
    r.push(gpg_cmd);
    r.push(tar_cmd);
    r
}

/// What to do after `completed` commands of a plan of `total` have run and
/// the last one finished as `last_ok` reports.
pub enum ArchiveAction {
    /// Run the next command of the plan.
    RunNext,
    /// A command failed: the run is fatal, nothing further is executed.
    FatalStop,
    /// Every command of the plan succeeded.
    Finished,
}

/// The sequencing policy of the archive plans: strictly in order, stopping
/// at the first failure.
pub fn archive_next_action(completed: usize, total: usize, last_ok: bool) -> (r: ArchiveAction)
    ensures
        !last_ok ==> r is FatalStop,
        last_ok && completed < total ==> r is RunNext,
        last_ok && completed >= total ==> r is Finished,
{
    if !last_ok {
        ArchiveAction::FatalStop
    } else if completed < total {
        ArchiveAction::RunNext
    } else {
        ArchiveAction::Finished
    }
}

} // verus!
