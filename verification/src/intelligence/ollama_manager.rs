//! Where the Ollama server is, and what to do to have one.
//!
//! In order of preference:
//!
//! 1. the configured endpoint answers: use it;
//! 2. the Flatpak extension provides a binary: start it;
//! 3. there is a managed binary: start it;
//! 4. `ollama` is on the path, outside of Flatpak: start it;
//! 5. in Flatpak without any binary: offer a download;
//! 6. otherwise there is nothing to use.

use vstd::prelude::*;
use crate::text::{chars_of, push_str, string_of, trim_prefixes, trimmed_end_char, trimmed_prefixes};

verus! {

/// Availability of Ollama.
#[derive(Debug, Clone, PartialEq)]
pub enum OllamaStatus {
    /// The endpoint answers.
    Running { endpoint: String },
    /// There is a binary that is not running.
    Found { path: String },
    /// In Flatpak, and the managed binary is not there yet.
    NeedDownload,
    /// No binary, and no way to download one.
    NotAvailable,
}

/// A status as text.
pub enum StatusView {
    Running { endpoint: Seq<char> },
    Found { path: Seq<char> },
    NeedDownload,
    NotAvailable,
}

impl View for OllamaStatus {
    type V = StatusView;

    open spec fn view(&self) -> StatusView {
        match self {
            OllamaStatus::Running { endpoint } => StatusView::Running { endpoint: endpoint@ },
            OllamaStatus::Found { path } => StatusView::Found { path: path@ },
            OllamaStatus::NeedDownload => StatusView::NeedDownload,
            OllamaStatus::NotAvailable => StatusView::NotAvailable,
        }
    }
}

/// The description of a status.
pub open spec fn status_label(s: StatusView) -> Seq<char> {
    match s {
        StatusView::Running { endpoint } => "Connected \u{2014} "@ + endpoint,
        StatusView::Found { path } => "Found \u{2014} "@ + path,
        StatusView::NeedDownload => "Not installed \u{2014} download available"@,
        StatusView::NotAvailable => "Not found \u{2014} install Ollama to enable AI summaries"@,
    }
}

impl OllamaStatus {
    /// Description for the preferences.
    pub fn label(&self) -> (r: String)
        ensures
            r@ == status_label(self@),
    {
        match self {
            OllamaStatus::Running { endpoint } => {
                let mut out = String::new();
                out.append("Connected \u{2014} ");
                out.append(endpoint.as_str());
                out
            },
            OllamaStatus::Found { path } => {
                let mut out = String::new();
                out.append("Found \u{2014} ");
                out.append(path.as_str());
                out
            },
            OllamaStatus::NeedDownload => "Not installed \u{2014} download available".to_owned(),
            OllamaStatus::NotAvailable => {
                "Not found \u{2014} install Ollama to enable AI summaries".to_owned()
            },
        }
    }
}

/// What was found on this machine.
#[derive(Debug)]
pub struct Probe {
    /// Whether the configured endpoint answered.
    pub reachable: bool,
    /// Whether this runs inside a Flatpak sandbox.
    pub in_flatpak: bool,
    /// Path of the extension's binary, if it is there.
    pub extension: Option<String>,
    /// Path of the managed binary, if it is there.
    pub managed: Option<String>,
    /// Path of the `ollama` on the search path, if there is one.
    pub on_path: Option<String>,
}

/// The status that a probe amounts to.
pub open spec fn status_of(endpoint: Seq<char>, p: Probe) -> StatusView {
    if p.reachable {
        StatusView::Running { endpoint }
    } else if p.in_flatpak && p.extension is Some {
        StatusView::Found { path: p.extension->0@ }
    } else if p.managed is Some {
        StatusView::Found { path: p.managed->0@ }
    } else if !p.in_flatpak && p.on_path is Some {
        StatusView::Found { path: p.on_path->0@ }
    } else if p.in_flatpak {
        StatusView::NeedDownload
    } else {
        StatusView::NotAvailable
    }
}

/// The availability of Ollama, given the configured endpoint and what was
/// found.
pub fn detect(endpoint: &str, probe: Probe) -> (r: OllamaStatus)
    ensures
        r@ == status_of(endpoint@, probe),
{
    if probe.reachable {
        return OllamaStatus::Running { endpoint: endpoint.to_owned() };
    }
    if probe.in_flatpak {
        if let Some(path) = probe.extension {
            return OllamaStatus::Found { path };
        }
    }
    if let Some(path) = probe.managed {
        return OllamaStatus::Found { path };
    }
    if !probe.in_flatpak {
        if let Some(path) = probe.on_path {
            return OllamaStatus::Found { path };
        }
    }
    if probe.in_flatpak {
        OllamaStatus::NeedDownload
    } else {
        OllamaStatus::NotAvailable
    }
}

/// Where the binary for a Flatpak sandbox is downloaded from.
pub const DOWNLOAD_URL: &'static str = "https://github.com/ollama/ollama/releases/latest/download/ollama-linux-amd64";

/// What to do to have a running server.
#[derive(Debug)]
pub enum RunStep {
    /// The server at this endpoint can be used.
    Use { endpoint: String },
    /// This binary has to be started first.
    Start { path: String },
    /// There is no server to be had.
    GiveUp,
}

/// What a status asks for.
pub fn ensure_running(status: OllamaStatus) -> (r: RunStep)
    ensures
        match status {
            OllamaStatus::Running { endpoint } => r == (RunStep::Use { endpoint }),
            OllamaStatus::Found { path } => r == (RunStep::Start { path }),
            _ => r == RunStep::GiveUp,
        },
{
    match status {
        OllamaStatus::Running { endpoint } => RunStep::Use { endpoint },
        OllamaStatus::Found { path } => RunStep::Start { path },
        OllamaStatus::NeedDownload => RunStep::GiveUp,
        OllamaStatus::NotAvailable => RunStep::GiveUp,
    }
}

/// How often a server that the preferences started is asked whether it answers.
pub const START_ATTEMPTS: u32 = 10;

/// How often a server that a summary started is asked whether it answers.
pub const SUMMARY_ATTEMPTS: u32 = 20;

/// How long to wait before each of these questions, in milliseconds.
pub const START_POLL_MS: u64 = 500;

/// What to do while a started server comes up.
#[derive(Debug, PartialEq, Eq, Structural, Clone, Copy)]
pub enum StartStep {
    Ready,
    WaitAgain,
    GiveUp,
}

/// What follows the `attempt`-th of `attempts` questions, counting from 1.
pub fn start_step(attempt: u32, attempts: u32, reachable: bool) -> (r: StartStep)
    ensures
        r == (if reachable {
            StartStep::Ready
        } else if attempt < attempts {
            StartStep::WaitAgain
        } else {
            StartStep::GiveUp
        }),
{
    if reachable {
        StartStep::Ready
    } else if attempt < attempts {
        StartStep::WaitAgain
    } else {
        StartStep::GiveUp
    }
}

/// The host part of an endpoint, for the server's environment.
pub fn host_of(endpoint: &str) -> (r: String)
    ensures
        r@ == trim_prefixes(trim_prefixes(endpoint@, "https://"@), "http://"@),
{
    proof {
        reveal_strlit("https://");
        reveal_strlit("http://");
    }
    let a = trimmed_prefixes(chars_of(endpoint), "https://");
    let b = trimmed_prefixes(a, "http://");
    string_of(&b)
}

/// The URL of an API path on an endpoint, however the endpoint is written.
pub open spec fn api_url_of(endpoint: Seq<char>, path: Seq<char>) -> Seq<char> {
    crate::text::trim_end_char(endpoint, '/') + path
}

/// The URL of an API path on an endpoint.
pub fn api_url(endpoint: &str, path: &str) -> (r: String)
    ensures
        r@ == api_url_of(endpoint@, path@),
{
    let e = chars_of(endpoint);
    let mut out = trimmed_end_char(&e, '/');
    push_str(&mut out, path);
    string_of(&out)
}

/// A server that answers is used, whatever else was found. Otherwise the binary of
/// the sandbox goes before the managed one, and that before the one of the system,
/// which is not used from a sandbox; a sandbox without a binary gets a download.
pub proof fn law_nearest_server_is_used(endpoint: Seq<char>, p: Probe)
    ensures
        p.reachable ==> status_of(endpoint, p) == (StatusView::Running { endpoint }),
        !p.reachable && p.in_flatpak && p.extension is Some ==> status_of(endpoint, p) == (
        StatusView::Found { path: p.extension->0@ }),
        !p.reachable && p.managed is Some && (!p.in_flatpak || p.extension is None) ==> status_of(
            endpoint,
            p,
        ) == (StatusView::Found { path: p.managed->0@ }),
        !p.reachable && p.managed is None && !p.in_flatpak && p.on_path is Some ==> status_of(
            endpoint,
            p,
        ) == (StatusView::Found { path: p.on_path->0@ }),
        !p.reachable && p.managed is None && p.in_flatpak && p.extension is None ==> status_of(
            endpoint,
            p,
        ) is NeedDownload,
        !p.reachable && p.managed is None && !p.in_flatpak && p.on_path is None ==> status_of(
            endpoint,
            p,
        ) is NotAvailable,
{
}

/// An endpoint may be written with or without a slash at its end: the address of a
/// path on it is the same, and is the endpoint followed by the path.
pub proof fn law_slashes_do_not_matter(endpoint: Seq<char>, path: Seq<char>)
    ensures
        api_url_of(endpoint + seq!['/'], path) == api_url_of(endpoint, path),
        endpoint.len() == 0 || endpoint.last() != '/' ==> api_url_of(endpoint, path) == endpoint + path,
{
    let slashed = endpoint + seq!['/'];
    assert(slashed.last() == '/');
    assert(slashed.drop_last() == endpoint);
}

/// A status is described by what it says of the server: where it is, or what can be
/// done about it.
pub proof fn law_status_is_described(s: StatusView)
    ensures
        s is Running ==> crate::text::ends_with(status_label(s), s->endpoint),
        s is Found ==> crate::text::ends_with(status_label(s), s->path),
{
    match s {
        StatusView::Running { endpoint } => {
            let label = "Connected \u{2014} "@ + endpoint;
            assert(label.skip(label.len() - endpoint.len()) == endpoint);
        },
        StatusView::Found { path } => {
            let label = "Found \u{2014} "@ + path;
            assert(label.skip(label.len() - path.len()) == path);
        },
        _ => {},
    }
}

/// A server that was started is asked again until it answers or has been asked often
/// enough.
pub proof fn law_started_server_is_awaited(attempt: u32, attempts: u32, reachable: bool, step: StartStep)
    requires
        call_ensures(start_step, (attempt, attempts, reachable), step),
    ensures
        reachable ==> step == StartStep::Ready,
        !reachable && attempt < attempts ==> step == StartStep::WaitAgain,
        !reachable && attempt >= attempts ==> step == StartStep::GiveUp,
{
}

/// A server that answers is used, a binary that was found is started, and otherwise
/// nothing is.
pub proof fn law_status_decides_what_is_done(status: OllamaStatus, step: RunStep)
    requires
        call_ensures(ensure_running, (status,), step),
    ensures
        status is Running ==> step == (RunStep::Use { endpoint: status->endpoint }),
        status is Found ==> step == (RunStep::Start { path: status->path }),
        status is NeedDownload || status is NotAvailable ==> step is GiveUp,
{
}

} // verus!
