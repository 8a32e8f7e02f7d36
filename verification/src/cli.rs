//! The operator commands' decisions: which endpoint a command calls, what
//! body it sends, and how it reads what it is given. The HTTP calls,
//! process spawning and signalling around them are the caller's.

use vstd::prelude::*;

use crate::api::UpdatePortRequest;
use crate::digits::spec_parse_u64;

verus! {

/// Why a stop command could not act.
#[derive(Clone, Copy, Debug, PartialEq, Eq, Structural)]
pub enum CliError {
    /// Neither a process id nor a pid file was given.
    MissingPidSource,
    /// The pid file could not be read.
    PidUnreadable,
    /// The pid file's contents are not a process id.
    PidInvalid,
}

/// The address of an API endpoint: the base URL, one `/`, and the path
/// with its leading slashes dropped.
pub open spec fn spec_trim_leading_slashes(p: Seq<char>) -> Seq<char>
    decreases p.len(),
{
    if p.len() > 0 && p[0] == '/' {
        spec_trim_leading_slashes(p.drop_first())
    } else {
        p
    }
}

proof fn lemma_trim_leading_skip(p: Seq<char>, i: int)
    requires
        0 <= i <= p.len(),
        forall|j: int| 0 <= j < i ==> p[j] == '/',
    ensures
        spec_trim_leading_slashes(p) == spec_trim_leading_slashes(p.subrange(i, p.len() as int)),
    decreases i,
{
    if i > 0 {
        assert(p[0] == '/');
        assert(p.drop_first() =~= p.subrange(1, p.len() as int));
        lemma_trim_leading_skip(p.drop_first(), i - 1);
        assert(p.drop_first().subrange(i - 1, p.drop_first().len() as int) =~= p.subrange(
            i,
            p.len() as int,
        ));
    } else {
        assert(p.subrange(0, p.len() as int) =~= p);
    }
}

/// Join a base API URL and an endpoint path.
pub fn api_endpoint(api_url: &str, path: &str) -> (r: String)
    ensures
        r@ == api_url@ + "/"@ + spec_trim_leading_slashes(path@),
{
    let len = path.unicode_len();
    let mut i: usize = 0;
    while i < len && path.get_char(i) == '/'
        invariant
            len == path@.len(),
            0 <= i <= len,
            forall|j: int| 0 <= j < i ==> path@[j] == '/',
        decreases len - i,
    {
        i = i + 1;
    }
    let rest = path.substring_char(i, len);
    proof {
        lemma_trim_leading_skip(path@, i as int);
        if i < len {
            assert(path@.subrange(i as int, len as int)[0] != '/');
        }
    }
    let mut s = api_url.to_owned();
    s.append("/");
    s.append(rest);
    s
}

/// Whitespace as a pid file may carry it around the number.
pub open spec fn spec_is_space(c: char) -> bool {
    c == ' ' || c == '\t' || c == '\n' || c == '\r'
}

pub open spec fn spec_trim_end(s: Seq<char>) -> Seq<char>
    decreases s.len(),
{
    if s.len() > 0 && spec_is_space(s.last()) {
        spec_trim_end(s.drop_last())
    } else {
        s
    }
}

/// `s` without leading and trailing ASCII whitespace.
pub open spec fn spec_trim(s: Seq<char>) -> Seq<char>
    decreases s.len(),
{
    if s.len() > 0 && spec_is_space(s[0]) {
        spec_trim(s.drop_first())
    } else {
        spec_trim_end(s)
    }
}

fn is_space(c: char) -> (r: bool)
    ensures
        r == spec_is_space(c),
{
    c == ' ' || c == '\t' || c == '\n' || c == '\r'
}

proof fn lemma_trim_skip_front(s: Seq<char>, i: int)
    requires
        0 <= i <= s.len(),
        forall|j: int| 0 <= j < i ==> spec_is_space(s[j]),
    ensures
        spec_trim(s) == spec_trim(s.subrange(i, s.len() as int)),
    decreases i,
{
    if i > 0 {
        assert(spec_is_space(s[0]));
        assert(s.drop_first() =~= s.subrange(1, s.len() as int));
        lemma_trim_skip_front(s.drop_first(), i - 1);
        assert(s.drop_first().subrange(i - 1, s.drop_first().len() as int) =~= s.subrange(
            i,
            s.len() as int,
        ));
    } else {
        assert(s.subrange(0, s.len() as int) =~= s);
    }
}

proof fn lemma_trim_end_skip(s: Seq<char>, e: int)
    requires
        0 <= e <= s.len(),
        forall|j: int| e <= j < s.len() ==> spec_is_space(s[j]),
    ensures
        spec_trim_end(s) == spec_trim_end(s.subrange(0, e)),
    decreases s.len() - e,
{
    if e < s.len() {
        assert(spec_is_space(s.last()));
        assert(s.drop_last() =~= s.subrange(0, s.len() - 1));
        lemma_trim_end_skip(s.drop_last(), e);
        assert(s.drop_last().subrange(0, e) =~= s.subrange(0, e));
    } else {
        assert(s.subrange(0, s.len() as int) =~= s);
    }
}

/// Trim ASCII whitespace from both ends.
pub fn trim_spaces(s: &str) -> (r: String)
    ensures
        r@ == spec_trim(s@),
{
    let len = s.unicode_len();
    let mut b: usize = 0;
    while b < len && is_space(s.get_char(b))
        invariant
            len == s@.len(),
            0 <= b <= len,
            forall|j: int| 0 <= j < b ==> spec_is_space(s@[j]),
        decreases len - b,
    {
        b = b + 1;
    }
    let mut e: usize = len;
    while e > b && is_space(s.get_char(e - 1))
        invariant
            len == s@.len(),
            b <= e <= len,
            forall|j: int| e <= j < len ==> spec_is_space(s@[j]),
        decreases e,
    {
        e = e - 1;
    }
    let mid = s.substring_char(b, e);
    proof {
        let tail = s@.subrange(b as int, len as int);
        lemma_trim_skip_front(s@, b as int);
        if b < len {
            assert(tail[0] == s@[b as int]);
            assert(!spec_is_space(tail[0]));
        }
        assert(spec_trim(tail) == spec_trim_end(tail));
        assert(forall|j: int| e - b <= j < tail.len() ==> spec_is_space(#[trigger] tail[j]));
        lemma_trim_end_skip(tail, e - b);
        assert(tail.subrange(0, e - b) =~= s@.subrange(b as int, e as int));
        if e > b {
            assert(!spec_is_space(s@.subrange(b as int, e as int).last()));
        }
    }
    mid.to_owned()
}

/// Read a process id from a pid file's text: the trimmed contents as a
/// decimal number.
pub fn parse_pid_text(text: &str) -> (r: Option<u32>)
    ensures
        match r {
            Some(v) => spec_parse_u64(spec_trim(text@)) == Some(v as nat),
            None => spec_parse_u64(spec_trim(text@)) is None || spec_parse_u64(
                spec_trim(text@),
            ).unwrap() > u32::MAX,
        },
{
    let t = trim_spaces(text);
    crate::digits::parse_u32(t.as_str())
}

/// Update a service to use a different port.
#[derive(Debug)]
pub struct PortCommand {
    pub service: String,
    pub port: u16,
    pub skip_health: bool,
}

impl PortCommand {
    /// The body the command posts to the port endpoint.
    pub fn to_request(&self) -> (r: UpdatePortRequest)
        ensures
            r@.service == self.service@,
            r@.port == self.port,
            r@.skip_health_check == self.skip_health,
    {
        UpdatePortRequest {
            service: self.service.clone(),
            port: self.port,
            skip_health_check: self.skip_health,
        }
    }
}

/// Start the proxy server process.
#[derive(Debug)]
pub struct StartCommand {
    pub config: Option<String>,
    pub daemon: bool,
    pub log_file: Option<String>,
    pub pid_file: Option<String>,
    pub verbose: bool,
}

impl StartCommand {
    /// The log level the started process runs under.
    pub fn log_level(&self) -> (r: &'static str)
        ensures
            self.verbose ==> r@ == "debug"@,
            !self.verbose ==> r@ == "info"@,
    {
        if self.verbose {
            "debug"
        } else {
            "info"
        }
    }
}

/// Check the server's status.
#[derive(Debug)]
pub struct StatusCommand {
    pub pid_file: Option<String>,
}

/// What a status check finds out about the server process.
#[derive(Clone, Copy, Debug, PartialEq, Eq, Structural)]
pub enum ProcessStatus {
    /// A pid was found and the process answers signals.
    Running { pid: u32 },
    /// A pid was found but no such process runs.
    Stale { pid: u32 },
    /// No pid file or no readable pid.
    NoPid,
}

impl StatusCommand {
    /// Classify the process from the pid the file gave (if any) and
    /// whether that process is alive.
    pub fn classify(pid: Option<u32>, alive: bool) -> (r: ProcessStatus)
        ensures
            r == match pid {
                Some(p) => if alive {
                    ProcessStatus::Running { pid: p }
                } else {
                    ProcessStatus::Stale { pid: p }
                },
                None => ProcessStatus::NoPid,
            },
    {
        match pid {
            Some(p) => if alive {
                ProcessStatus::Running { pid: p }
            } else {
                ProcessStatus::Stale { pid: p }
            },
            None => ProcessStatus::NoPid,
        }
    }
}

/// Stop the server process.
#[derive(Debug)]
pub struct StopCommand {
    pub pid_file: Option<String>,
    pub pid: Option<u32>,
}

impl StopCommand {
    /// The process to signal: an explicit pid wins; otherwise the pid
    /// file's contents, which the caller has read into `pid_file_text`
    /// (`None` when reading failed). With neither source the command
    /// cannot act.
    pub fn resolve_pid(&self, pid_file_text: Option<&str>) -> (r: Result<u32, CliError>)
        ensures
            match self.pid {
                Some(p) => r == Result::<u32, CliError>::Ok(p),
                None => match self.pid_file {
                    Some(_) => match pid_file_text {
                        None => r == Result::<u32, CliError>::Err(CliError::PidUnreadable),
                        Some(t) => match spec_parse_u64(spec_trim(t@)) {
                            Some(v) => if v <= u32::MAX {
                                r == Result::<u32, CliError>::Ok(v as u32)
                            } else {
                                r == Result::<u32, CliError>::Err(CliError::PidInvalid)
                            },
                            None => r == Result::<u32, CliError>::Err(CliError::PidInvalid),
                        },
                    },
                    None => r == Result::<u32, CliError>::Err(CliError::MissingPidSource),
                },
            },
    {
        match self.pid {
            Some(p) => Ok(p),
            None => match &self.pid_file {
                Some(_) => match pid_file_text {
                    None => Err(CliError::PidUnreadable),
                    Some(t) => match parse_pid_text(t) {
                        Some(v) => Ok(v),
                        None => Err(CliError::PidInvalid),
                    },
                },
                None => Err(CliError::MissingPidSource),
            },
        }
    }
}

} // verus!
