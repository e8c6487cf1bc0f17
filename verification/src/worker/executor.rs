use crate::config::SandboxConfig;
use crate::ids;
use crate::ids::{simple_job_id, JobId};
use crate::scheduler::JobStatus;
use crate::text;
use crate::text::{debug_opt_i32, decimal_text};
use vstd::prelude::*;
use vstd::string::*;

verus! {

/// What came of running a job.
#[derive(Debug)]
pub struct ExecutionResult {
    pub job_id: JobId,
    pub status: JobStatus,
    pub exit_code: Option<i32>,
    pub output: Option<String>,
    pub error: Option<String>,
}

/// What came of running a job, as the model sees it.
#[verifier::ext_equal]
pub struct ResultView {
    pub job_id: JobId,
    pub status: JobStatus,
    pub exit_code: Option<i32>,
    pub output: Option<Seq<char>>,
    pub error: Option<Seq<char>>,
}

impl View for ExecutionResult {
    type V = ResultView;

    open spec fn view(&self) -> ResultView {
        ResultView {
            job_id: self.job_id,
            status: self.status,
            exit_code: self.exit_code,
            output: text::opt_text(self.output),
            error: text::opt_text(self.error),
        }
    }
}

/// How a process ended and what it printed.
#[derive(Debug)]
pub struct ProcessOutput {
    pub success: bool,
    /// The exit code; none when a signal ended the process.
    pub code: Option<i32>,
    pub stdout: Vec<u8>,
    pub stderr: Vec<u8>,
}

/// What `String::from_utf8_lossy` reads in bytes: their text, with replacement characters where
/// they are not valid.
pub uninterp spec fn lossy_text(bytes: Seq<u8>) -> Seq<char>;

/// Calls `String::from_utf8_lossy`. Valid bytes are decoded as they stand; what becomes of
/// invalid ones is named, not spelled out.
#[verifier::external_body]
fn text_from_bytes(bytes: &Vec<u8>) -> (r: String)
    ensures
        r@ == lossy_text(bytes@),
        vstd::utf8::valid_utf8(bytes@) ==> r@ == vstd::utf8::decode_utf8(bytes@),
{
    String::from_utf8_lossy(bytes).to_string()
}

/// Runs jobs in Docker containers: without network unless allowed, without capabilities, on a
/// read-only file system, with limited memory and CPU.
#[derive(Debug)]
pub struct JobExecutor {
    config: SandboxConfig,
}

impl Clone for JobExecutor {
    fn clone(&self) -> (r: Self)
        ensures
            r.sandbox() == self.sandbox(),
    {
        JobExecutor { config: self.config.clone() }
    }
}

/// The name of the container for a job.
pub open spec fn container_name_text(job_id: JobId) -> Seq<char> {
    "nomad-"@ + ids::simple_id_text(job_id)
}

/// Containers of different jobs have different names.
pub proof fn container_names_are_unique(a: JobId, b: JobId)
    requires
        container_name_text(a) == container_name_text(b),
    ensures
        a == b,
{
    let prefix = "nomad-"@;
    assert(container_name_text(a).skip(prefix.len() as int) =~= ids::simple_id_text(a));
    assert(container_name_text(b).skip(prefix.len() as int) =~= ids::simple_id_text(b));
    ids::id_text_is_unique(a, b);
}

/// One argument if there is a limit, none otherwise.
pub open spec fn limit_args(prefix: Seq<char>, limit: Option<Seq<char>>) -> Seq<Seq<char>> {
    match limit {
        Some(limit) => seq![prefix + limit],
        None => Seq::empty(),
    }
}

/// The arguments of `docker` that run a job.
pub open spec fn docker_args_text(
    config: SandboxConfig,
    job_id: JobId,
    command: Seq<char>,
    image: Option<Seq<char>>,
) -> Seq<Seq<char>> {
    seq!["run"@, "--rm"@, "--name"@, container_name_text(job_id)] + (if config.network_disabled {
        seq!["--network=none"@]
    } else {
        Seq::empty()
    }) + limit_args("--memory="@, text::opt_text(config.memory_limit)) + limit_args(
        "--cpus="@,
        text::opt_text(config.cpu_limit),
    ) + seq![
        "--cap-drop=ALL"@,
        "--security-opt=no-new-privileges"@,
        "--read-only"@,
        match image {
            Some(image) => image,
            None => config.image@,
        },
        "sh"@,
        "-c"@,
        command,
    ]
}

/// The result of a job that could not be run.
pub open spec fn not_run(job_id: JobId, error: Seq<char>) -> ResultView {
    ResultView {
        job_id,
        status: JobStatus::Failed,
        exit_code: None,
        output: None,
        error: Some(error),
    }
}

/// What a failed process is reported with: what it printed as error, or else its exit code.
pub open spec fn failure_text(stderr: Seq<char>, code: Option<i32>) -> Seq<char> {
    if stderr.len() == 0 {
        "Exit code: "@ + text::debug_opt(
            match code {
                Some(code) => Some(text::signed_decimal(code as int)),
                None => None,
            },
        )
    } else {
        stderr
    }
}

/// The result of a job whose process ended.
pub open spec fn process_result(
    job_id: JobId,
    success: bool,
    code: Option<i32>,
    stdout: Seq<char>,
    stderr: Seq<char>,
) -> ResultView {
    ResultView {
        job_id,
        status: if success {
            JobStatus::Completed
        } else {
            JobStatus::Failed
        },
        exit_code: code,
        output: if stdout.len() == 0 {
            None
        } else {
            Some(stdout)
        },
        error: if success {
            None
        } else {
            Some(failure_text(stderr, code))
        },
    }
}

impl JobExecutor {
    /// How this executor runs jobs.
    pub closed spec fn sandbox(&self) -> SandboxConfig {
        self.config
    }

    /// An executor with these settings.
    pub fn new(config: SandboxConfig) -> (r: Self)
        ensures
            r.sandbox() == config,
    {
        JobExecutor { config }
    }

    /// Seconds after which a job is stopped.
    pub fn timeout_secs(&self) -> (r: u64)
        ensures
            r == self.sandbox().timeout_secs,
    {
        self.config.timeout_secs
    }

    /// The name of the container for a job. It is unique, so that the container can be removed
    /// when time is up.
    pub fn container_name(job_id: JobId) -> (r: String)
        ensures
            r@ == container_name_text(job_id),
    {
        "nomad-".to_owned().concat(simple_job_id(job_id).as_str())
    }

    /// The arguments of `docker` that run a job, in its own image if it has one.
    pub fn docker_args(&self, job_id: JobId, command: &str, image: Option<&str>) -> (r: Vec<String>)
        ensures
            text::texts(r@) == docker_args_text(
                self.sandbox(),
                job_id,
                command@,
                match image {
                    Some(image) => Some(image@),
                    None => None,
                },
            ),
    {
        let mut args: Vec<String> = Vec::new();
        args.push("run".to_owned());
        args.push("--rm".to_owned());
        args.push("--name".to_owned());
        args.push(JobExecutor::container_name(job_id));
        assert(text::texts(args@) =~= seq!["run"@, "--rm"@, "--name"@, container_name_text(job_id)]);
        let ghost start = text::texts(args@);
        if self.config.network_disabled {
            args.push("--network=none".to_owned());
        }
        let ghost network = if self.config.network_disabled {
            seq!["--network=none"@]
        } else {
            Seq::<Seq<char>>::empty()
        };
        assert(text::texts(args@) =~= start + network);
        if let Some(limit) = &self.config.memory_limit {
            args.push("--memory=".to_owned().concat(limit.as_str()));
        }
        let ghost memory = limit_args("--memory="@, text::opt_text(self.config.memory_limit));
        assert(text::texts(args@) =~= start + network + memory);
        if let Some(limit) = &self.config.cpu_limit {
            args.push("--cpus=".to_owned().concat(limit.as_str()));
        }
        let ghost cpus = limit_args("--cpus="@, text::opt_text(self.config.cpu_limit));
        assert(text::texts(args@) =~= start + network + memory + cpus);
        let ghost front = text::texts(args@);
        args.push("--cap-drop=ALL".to_owned());
        args.push("--security-opt=no-new-privileges".to_owned());
        args.push("--read-only".to_owned());
        match image {
            Some(image) => args.push(image.to_owned()),
            None => args.push(self.config.image.clone()),
        }
        args.push("sh".to_owned());
        args.push("-c".to_owned());
        args.push(command.to_owned());
        assert(text::texts(args@) =~= front + seq![
            "--cap-drop=ALL"@,
            "--security-opt=no-new-privileges"@,
            "--read-only"@,
            match image {
                Some(image) => image@,
                None => self.config.image@,
            },
            "sh"@,
            "-c"@,
            command@,
        ]);
        args
    }

    /// The arguments of `docker` that remove the container of a job whose time is up.
    pub fn removal_args(job_id: JobId) -> (r: Vec<String>)
        ensures
            text::texts(r@) == seq!["rm"@, "-f"@, container_name_text(job_id)],
    {
        let mut args: Vec<String> = Vec::new();
        args.push("rm".to_owned());
        args.push("-f".to_owned());
        args.push(JobExecutor::container_name(job_id));
        assert(text::texts(args@) =~= seq!["rm"@, "-f"@, container_name_text(job_id)]);
        args
    }

    /// The result of a job for which no process could be started.
    pub fn spawn_failed(job_id: JobId, error: String) -> (r: ExecutionResult)
        ensures
            r@ == not_run(job_id, error@),
    {
        ExecutionResult {
            job_id,
            status: JobStatus::Failed,
            exit_code: None,
            output: None,
            error: Some(error),
        }
    }

    /// The result of a job whose time is up.
    pub fn timed_out(&self, job_id: JobId) -> (r: ExecutionResult)
        ensures
            r@ == not_run(
                job_id,
                "Timed out after "@ + text::decimal(self.sandbox().timeout_secs as nat) + "s"@,
            ),
    {
        JobExecutor::spawn_failed(
            job_id,
            "Timed out after ".to_owned().concat(decimal_text(self.config.timeout_secs).as_str())
                .concat("s"),
        )
    }

    /// The result of a job whose process ended, or could not be waited for.
    pub fn process_output(job_id: JobId, result: Result<ProcessOutput, String>) -> (r:
        ExecutionResult)
        ensures
            result matches Ok(output) ==> r@ == process_result(
                job_id,
                output.success,
                output.code,
                lossy_text(output.stdout@),
                lossy_text(output.stderr@),
            ),
            result matches Err(e) ==> r@ == not_run(job_id, e@),
    {
        match result {
            Ok(output) => {
                let stdout = text_from_bytes(&output.stdout);
                let stderr = text_from_bytes(&output.stderr);
                JobExecutor::process_text(job_id, output.success, output.code, stdout, stderr)
            },
            Err(e) => JobExecutor::spawn_failed(job_id, e),
        }
    }

    /// The result of a job whose process ended and printed these texts.
    pub fn process_text(
        job_id: JobId,
        success: bool,
        code: Option<i32>,
        stdout: String,
        stderr: String,
    ) -> (r: ExecutionResult)
        ensures
            r@ == process_result(job_id, success, code, stdout@, stderr@),
    {
        let (status, error) = if success {
            (JobStatus::Completed, None)
        } else {
            let message = if stderr.as_str().is_empty() {
                "Exit code: ".to_owned().concat(debug_opt_i32(&code).as_str())
            } else {
                stderr
            };
            (JobStatus::Failed, Some(message))
        };
        let output = if stdout.as_str().is_empty() {
            None
        } else {
            Some(stdout)
        };
        ExecutionResult { job_id, status, exit_code: code, output, error }
    }
}

} // verus!
