//! What holds of running jobs.

use crate::config::SandboxConfig;
use crate::ids;
use crate::ids::JobId;
use crate::text;
use crate::worker::executor;
use vstd::prelude::*;

verus! {

/// A job completed exactly when its process succeeded, and failed otherwise. Its output is what
/// the process printed, if anything. A failure is told with what the process printed as error, or
/// with its exit code where it printed none; a success with nothing.
pub proof fn results_tell_how_processes_ended(
    job_id: JobId,
    success: bool,
    code: Option<i32>,
    stdout: Seq<char>,
    stderr: Seq<char>,
)
    ensures
        ({
            let r = executor::process_result(job_id, success, code, stdout, stderr);
            &&& r.job_id == job_id
            &&& r.status is Completed <==> success
            &&& r.status is Failed <==> !success
            &&& r.exit_code == code
            &&& stdout.len() > 0 ==> r.output == Some(stdout)
            &&& stdout.len() == 0 ==> r.output is None
            &&& success ==> r.error is None
            &&& !success && stderr.len() > 0 ==> r.error == Some(stderr)
            &&& !success && stderr.len() == 0 && code is Some ==> r.error == Some(
                "Exit code: "@ + ("Some("@ + text::signed_decimal(code->0 as int) + ")"@),
            )
            &&& !success && stderr.len() == 0 && code is None ==> r.error == Some(
                "Exit code: "@ + "None"@,
            )
        }),
{
}

/// A job that could not be run failed, with the reason and without output or exit code.
pub proof fn jobs_that_cannot_run_fail(job_id: JobId, error: Seq<char>)
    ensures
        ({
            let r = executor::not_run(job_id, error);
            &&& r.job_id == job_id
            &&& r.status is Failed
            &&& r.exit_code is None
            &&& r.output is None
            &&& r.error == Some(error)
        }),
{
}

/// Every job runs in a container of its own that is removed afterwards, without capabilities or
/// new privileges and on a read-only file system. Where the settings say so it has no network and
/// its memory and CPU are limited. It runs its command in a shell, in its own image or else in
/// that of the settings.
pub proof fn containers_are_sandboxed(
    config: SandboxConfig,
    job_id: JobId,
    command: Seq<char>,
    image: Option<Seq<char>>,
)
    ensures
        ({
            let args = executor::docker_args_text(config, job_id, command, image);
            let n = args.len() as int;
            let network: int = if config.network_disabled {
                1
            } else {
                0
            };
            let memory: int = if config.memory_limit is Some {
                1
            } else {
                0
            };
            let cpus: int = if config.cpu_limit is Some {
                1
            } else {
                0
            };
            &&& n == 11 + network + memory + cpus
            &&& args[0] == "run"@
            &&& args[1] == "--rm"@
            &&& args[2] == "--name"@
            &&& args[3] == "nomad-"@ + ids::simple_id_text(job_id)
            &&& config.network_disabled ==> args[4] == "--network=none"@
            &&& config.memory_limit matches Some(limit) ==> args[4 + network] == "--memory="@
                + limit@
            &&& config.cpu_limit matches Some(limit) ==> args[4 + network + memory] == "--cpus="@
                + limit@
            &&& args[n - 7] == "--cap-drop=ALL"@
            &&& args[n - 6] == "--security-opt=no-new-privileges"@
            &&& args[n - 5] == "--read-only"@
            &&& image matches Some(own) ==> args[n - 4] == own
            &&& image is None ==> args[n - 4] == config.image@
            &&& args[n - 3] == "sh"@
            &&& args[n - 2] == "-c"@
            &&& args[n - 1] == command
        }),
{
}

} // verus!
