//! The privileged TUN worker's protocol: the worker's arguments and token,
//! how the elevated process is launched, the handshake, and how the GUI side
//! of the connection ends.
use vstd::prelude::*;
use crate::net::{SocketAddress, is_loopback, parse_socket_address, parsed_socket_address, spec_is_loopback};
use crate::config::{ConnectionMode, GuiConfig};
use crate::discovery::string_views;
use crate::text::{chars_of, char_from_ascii, extend_chars, first_index_of, string_from_chars};

verus! {

/// The argument that starts this executable as the privileged worker.
pub const WORKER_FLAG: &'static str = "--privileged-tun-worker";

/// The version of the worker protocol.
pub const PROTOCOL_VERSION: u32 = 1;

/// What the worker reports to the GUI.
#[derive(Clone, Debug, PartialEq, Eq)]
pub enum WorkerEvent {
    Started { address: String, subnet: String },
    StartFailed { message: String },
    OperationFailed { message: String },
    PeerStatus { statuses: Vec<(String, bool)> },
}

/// What the GUI side learns from a worker connection.
#[derive(Clone, Debug, PartialEq, Eq)]
pub enum RemoteEvent {
    Worker(WorkerEvent),
    Disconnected { error: Option<String> },
}

/// Why the worker's arguments were refused.
#[derive(Clone, Copy, Debug, PartialEq, Eq, Structural)]
pub enum WorkerArgumentsError {
    /// Not exactly the executable, the flag and the endpoint.
    InvalidArguments,
    /// The endpoint is not a socket address.
    InvalidEndpoint,
    /// The endpoint is not on loopback.
    NotLoopback,
    /// The token is not 64 hexadecimal digits.
    InvalidToken,
}

impl WorkerArgumentsError {
    /// The text of the refusal.
    pub fn message(&self) -> (r: String)
        ensures
            r@ == worker_arguments_error_text(*self),
    {
        match self {
            WorkerArgumentsError::InvalidArguments => String::from_str(
                "invalid privileged worker arguments",
            ),
            WorkerArgumentsError::InvalidEndpoint => String::from_str(
                "invalid privileged worker endpoint: invalid socket address syntax",
            ),
            WorkerArgumentsError::NotLoopback => String::from_str(
                "the privileged worker endpoint must be on loopback",
            ),
            WorkerArgumentsError::InvalidToken => String::from_str(
                "invalid privileged worker token",
            ),
        }
    }
}

/// The text of each refusal of the worker's arguments.
pub open spec fn worker_arguments_error_text(e: WorkerArgumentsError) -> Seq<char> {
    match e {
        WorkerArgumentsError::InvalidArguments => "invalid privileged worker arguments"@,
        WorkerArgumentsError::InvalidEndpoint => "invalid privileged worker endpoint: invalid socket address syntax"@,
        WorkerArgumentsError::NotLoopback => "the privileged worker endpoint must be on loopback"@,
        WorkerArgumentsError::InvalidToken => "invalid privileged worker token"@,
    }
}

/// An ASCII hexadecimal digit, either case.
pub open spec fn is_hex_digit(c: char) -> bool {
    ('0' <= c && c <= '9') || ('a' <= c && c <= 'f') || ('A' <= c && c <= 'F')
}

/// A token that the worker accepts: 64 hexadecimal digits.
pub open spec fn is_strong_token(token: Seq<char>) -> bool {
    token.len() == 64 && forall|i: int| 0 <= i < token.len() ==> is_hex_digit(#[trigger] token[i])
}

fn hex_digit_char(c: char) -> (r: bool)
    ensures
        r == is_hex_digit(c),
{
    ('0' <= c && c <= '9') || ('a' <= c && c <= 'f') || ('A' <= c && c <= 'F')
}

fn strong_token(token: &str) -> (r: bool)
    ensures
        r == is_strong_token(token@),
{
    let chars = chars_of(token);
    if chars.len() != 64 {
        return false;
    }
    let mut i: usize = 0;
    while i < chars.len()
        invariant
            chars@ == token@,
            i <= chars@.len(),
            forall|k: int| 0 <= k < i ==> is_hex_digit(#[trigger] chars@[k]),
        decreases chars.len() - i,
    {
        if !hex_digit_char(chars[i]) {
            return false;
        }
        i = i + 1;
    }
    true
}

/// Where the worker connects back to and the token it authenticates with.
#[derive(Clone, Debug)]
pub struct WorkerArguments {
    pub endpoint: SocketAddress,
    pub token: String,
}

/// What reading an endpoint and a token gives.
pub open spec fn spec_from_parts(endpoint: Seq<char>, token: Seq<char>) -> Result<
    SocketAddress,
    WorkerArgumentsError,
> {
    match parsed_socket_address(endpoint) {
        None => Err(WorkerArgumentsError::InvalidEndpoint),
        Some(address) => if !spec_is_loopback(address.ip) {
            Err(WorkerArgumentsError::NotLoopback)
        } else if !is_strong_token(token) {
            Err(WorkerArgumentsError::InvalidToken)
        } else {
            Ok(address)
        },
    }
}

impl WorkerArguments {
    /// Whether the process was started as the privileged worker: its first
    /// argument is the worker flag.
    pub fn requested(arguments: &[String]) -> (r: bool)
        ensures
            r == (arguments@.len() > 1 && arguments@[1]@ == WORKER_FLAG@),
    {
        if arguments.len() > 1 {
            let flag = chars_of(WORKER_FLAG);
            let given = chars_of(arguments[1].as_str());
            crate::text::chars_eq(given.as_slice(), flag.as_slice())
        } else {
            false
        }
    }

    /// Reads the worker's arguments, the executable, the flag and the
    /// endpoint, with the token that the launcher handed over.
    pub fn parse_worker_arguments(arguments: &[String], token: String) -> (r: Result<
        WorkerArguments,
        WorkerArgumentsError,
    >)
        ensures
            arguments@.len() != 3 ==> r == Err::<WorkerArguments, WorkerArgumentsError>(
                WorkerArgumentsError::InvalidArguments,
            ),
            arguments@.len() == 3 ==> match spec_from_parts(arguments@[2]@, token@) {
                Ok(endpoint) => r matches Ok(a) && a.endpoint == endpoint && a.token == token,
                Err(e) => r == Err::<WorkerArguments, WorkerArgumentsError>(e),
            },
    {
        if arguments.len() != 3 {
            return Err(WorkerArgumentsError::InvalidArguments);
        }
        Self::from_parts(arguments[2].as_str(), token)
    }

    /// Checks an endpoint and a token: the endpoint must be a loopback
    /// socket address and the token 64 hexadecimal digits.
    pub fn from_parts(endpoint: &str, token: String) -> (r: Result<
        WorkerArguments,
        WorkerArgumentsError,
    >)
        ensures
            match spec_from_parts(endpoint@, token@) {
                Ok(address) => r matches Ok(a) && a.endpoint == address && a.token == token,
                Err(e) => r == Err::<WorkerArguments, WorkerArgumentsError>(e),
            },
    {
        let address = match parse_socket_address(endpoint) {
            Some(address) => address,
            None => return Err(WorkerArgumentsError::InvalidEndpoint),
        };
        if !is_loopback(&address.ip) {
            return Err(WorkerArgumentsError::NotLoopback);
        }
        if !strong_token(token.as_str()) {
            return Err(WorkerArgumentsError::InvalidToken);
        }
        Ok(WorkerArguments { endpoint: address, token })
    }
}

/// The user that PolicyKit ran the worker for, from `PKEXEC_UID`: a user
/// ID written as `u32::from_str` reads it.
pub fn invoking_user(text: &str) -> (r: Option<u32>)
    ensures
        r == crate::text::parse_u32(text@),
{
    crate::text::parse_number(chars_of(text).as_slice())
}

/// The lowercase hexadecimal digit of a value below 16.
pub open spec fn hex_char(v: int) -> char {
    if v < 10 {
        (48 + v) as char
    } else {
        (87 + v) as char
    }
}

/// Bytes as lowercase hexadecimal, two digits per byte.
pub open spec fn hex_text(bytes: Seq<u8>) -> Seq<char>
    decreases bytes.len(),
{
    if bytes.len() == 0 {
        Seq::empty()
    } else {
        hex_text(bytes.drop_last()) + seq![
            hex_char(bytes.last() as int / 16),
            hex_char(bytes.last() as int % 16),
        ]
    }
}

proof fn lemma_hex_text_digits(bytes: Seq<u8>)
    ensures
        hex_text(bytes).len() == 2 * bytes.len(),
        forall|i: int| 0 <= i < hex_text(bytes).len() ==> is_hex_digit(#[trigger] hex_text(bytes)[i]),
    decreases bytes.len(),
{
    if bytes.len() > 0 {
        lemma_hex_text_digits(bytes.drop_last());
    }
}

/// A token made of random bytes is always accepted by the worker.
pub proof fn lemma_hex_token_is_strong(bytes: Seq<u8>)
    requires
        bytes.len() == 32,
    ensures
        is_strong_token(hex_text(bytes)),
{
    lemma_hex_text_digits(bytes);
}

fn hex_digit(v: u8) -> (c: char)
    requires
        v < 16,
    ensures
        c == hex_char(v as int),
{
    if v < 10 {
        char_from_ascii((48 + v) as u32)
    } else {
        char_from_ascii((87 + v) as u32)
    }
}

/// Writes bytes as lowercase hexadecimal.
pub fn hex_token(bytes: &[u8]) -> (r: String)
    ensures
        r@ == hex_text(bytes@),
{
    let mut out: Vec<char> = Vec::new();
    let mut i: usize = 0;
    while i < bytes.len()
        invariant
            i <= bytes@.len(),
            out@ == hex_text(bytes@.take(i as int)),
        decreases bytes.len() - i,
    {
        let b = bytes[i];
        out.push(hex_digit(b / 16));
        out.push(hex_digit(b % 16));
        assert(bytes@.take(i + 1).drop_last() =~= bytes@.take(i as int));
        i = i + 1;
        assert(out@ =~= hex_text(bytes@.take(i as int)));
    }
    assert(bytes@.take(i as int) =~= bytes@);
    string_from_chars(out.as_slice())
}

/// Calls `rand::RngCore::try_fill_bytes` on the operating system's generator
/// (`rand::rngs::OsRng`) over the buffer, and tells whether it succeeded. The
/// contract claims only that the buffer keeps its length; nothing is claimed
/// of the bytes, nor of when the system's random source fails.
#[verifier::external_body]
pub(crate) fn fill_random(buffer: &mut Vec<u8>) -> (filled: bool)
    ensures
        final(buffer)@.len() == old(buffer)@.len(),
{
    rand::RngCore::try_fill_bytes(&mut rand::rngs::OsRng, buffer.as_mut_slice()).is_ok()
}

/// A fresh token: 32 random bytes as lowercase hexadecimal; `None` when the
/// system's random source fails.
pub fn random_token() -> (r: Option<String>)
    ensures
        r matches Some(token) ==> is_strong_token(token@) && exists|bytes: Seq<u8>|
            bytes.len() == 32 && token@ == hex_text(bytes),
{
    let mut bytes: Vec<u8> = vec![0u8; 32];
    if !fill_random(&mut bytes) {
        return None;
    }
    let token = hex_token(bytes.as_slice());
    proof {
        lemma_hex_token_is_strong(bytes@);
    }
    Some(token)
}

/// Whether a worker's hello is the one this launch waits for: the
/// protocol's version and the launch's token.
pub fn hello_accepted(version: u32, token: &str, expected: &str) -> (r: bool)
    ensures
        r == (version == PROTOCOL_VERSION && token@ == expected@),
{
    if version != PROTOCOL_VERSION {
        return false;
    }
    let a = chars_of(token);
    let b = chars_of(expected);
    crate::text::chars_eq(a.as_slice(), b.as_slice())
}

/// A command line that runs the worker with elevated rights.
#[derive(Clone, Debug, PartialEq, Eq)]
pub struct LinuxLaunch {
    pub executable: String,
    pub arguments: Vec<String>,
}

fn push_str(out: &mut Vec<String>, s: &str)
    ensures
        string_views(final(out)@) == string_views(old(out)@).push(s@),
{
    out.push(s.to_owned());
    assert(string_views(out@) =~= string_views(old(out)@).push(s@));
}

fn push_string(out: &mut Vec<String>, s: String)
    ensures
        string_views(final(out)@) == string_views(old(out)@).push(s@),
{
    let ghost v = s@;
    out.push(s);
    assert(string_views(out@) =~= string_views(old(out)@).push(v));
}

fn push_all(out: &mut Vec<String>, items: &[String])
    ensures
        string_views(final(out)@) == string_views(old(out)@) + string_views(items@),
{
    let ghost start = string_views(old(out)@);
    let mut i: usize = 0;
    while i < items.len()
        invariant
            i <= items@.len(),
            string_views(out@) == start + string_views(items@.take(i as int)),
        decreases items.len() - i,
    {
        let ghost before = out@;
        let item = items[i].clone();
        assert(item@ == items@[i as int]@);
        out.push(item);
        assert(string_views(out@) =~= string_views(before).push(items@[i as int]@));
        assert(string_views(items@.take(i + 1)) =~= string_views(items@.take(i as int)).push(
            items@[i as int]@,
        ));
        i = i + 1;
    }
    assert(items@.take(i as int) =~= items@);
}

impl LinuxLaunch {
    /// PolicyKit's `pkexec`, without its internal agent, running the
    /// executable with the worker's arguments.
    pub fn elevated(executable: &str, arguments: &[String]) -> (r: LinuxLaunch)
        ensures
            r.executable@ == "pkexec"@,
            string_views(r.arguments@) == seq!["--disable-internal-agent"@, executable@]
                + string_views(arguments@),
    {
        let mut elevated: Vec<String> = Vec::new();
        push_str(&mut elevated, "--disable-internal-agent");
        push_str(&mut elevated, executable);
        assert(string_views(elevated@) =~= seq!["--disable-internal-agent"@, executable@]);
        push_all(&mut elevated, arguments);
        LinuxLaunch { executable: String::from_str("pkexec"), arguments: elevated }
    }
}

/// Why a Flatpak launch could not be built.
#[derive(Clone, Debug, PartialEq, Eq)]
pub enum LaunchError {
    /// The deployment's app or runtime path is relative.
    NotAbsolute,
    /// No dynamic loader is known for this architecture.
    UnsupportedArchitecture(String),
    /// A deployment path holds the search path separator `:`.
    SeparatorInPath,
}

/// The text of each refusal of a Flatpak launch.
pub open spec fn launch_error_text(e: LaunchError) -> Seq<char> {
    match e {
        LaunchError::NotAbsolute => "Flatpak app and runtime paths must be absolute"@,
        LaunchError::UnsupportedArchitecture(a) => "Flatpak TUN is not supported on Linux architecture "@
            + a@,
        LaunchError::SeparatorInPath => "constructing the Flatpak runtime library path: path segment contains separator `:`"@,
    }
}

impl LaunchError {
    /// The text of the refusal.
    pub fn message(&self) -> (r: String)
        ensures
            r@ == launch_error_text(*self),
    {
        match self {
            LaunchError::NotAbsolute => String::from_str(
                "Flatpak app and runtime paths must be absolute",
            ),
            LaunchError::UnsupportedArchitecture(a) => {
                let mut out = chars_of("Flatpak TUN is not supported on Linux architecture ");
                extend_chars(&mut out, &chars_of(a.as_str()));
                string_from_chars(&out)
            },
            LaunchError::SeparatorInPath => String::from_str(
                "constructing the Flatpak runtime library path: path segment contains separator `:`",
            ),
        }
    }
}

/// The dynamic loader and the library directory of a Linux architecture.
pub open spec fn spec_linux_abi(architecture: Seq<char>) -> Option<(Seq<char>, Seq<char>)> {
    if architecture == "x86_64"@ {
        Some(("ld-linux-x86-64.so.2"@, "x86_64-linux-gnu"@))
    } else if architecture == "aarch64"@ {
        Some(("ld-linux-aarch64.so.1"@, "aarch64-linux-gnu"@))
    } else {
        None
    }
}

/// The dynamic loader and the library directory of a Linux architecture.
pub fn flatpak_linux_abi(architecture: &str) -> (r: Option<(String, String)>)
    ensures
        match spec_linux_abi(architecture@) {
            Some((loader, triplet)) => r matches Some(p) && p.0@ == loader && p.1@ == triplet,
            None => r is None,
        },
{
    let arch = chars_of(architecture);
    if crate::text::chars_eq(arch.as_slice(), chars_of("x86_64").as_slice()) {
        Some((String::from_str("ld-linux-x86-64.so.2"), String::from_str("x86_64-linux-gnu")))
    } else if crate::text::chars_eq(arch.as_slice(), chars_of("aarch64").as_slice()) {
        Some((String::from_str("ld-linux-aarch64.so.1"), String::from_str("aarch64-linux-gnu")))
    } else {
        None
    }
}

/// `Path::join` of a relative part on Unix: a separator is put between the
/// two unless the base is empty or already ends in one.
pub open spec fn path_join(base: Seq<char>, part: Seq<char>) -> Seq<char> {
    if base.len() == 0 || base.last() == '/' {
        base + part
    } else {
        base + "/"@ + part
    }
}

fn join_path(base: &[char], part: &str) -> (r: Vec<char>)
    ensures
        r@ == path_join(base@, part@),
{
    let mut out: Vec<char> = Vec::new();
    extend_chars(&mut out, base);
    if !(base.len() == 0 || base[base.len() - 1] == '/') {
        out.push('/');
        proof {
            reveal_strlit("/");
        }
        assert(out@ =~= base@ + "/"@);
    }
    extend_chars(&mut out, &chars_of(part));
    out
}

/// The library search path of a Flatpak worker: the app's and the
/// runtime's library directories, separated by `:`.
pub open spec fn flatpak_library_path(app: Seq<char>, runtime: Seq<char>, triplet: Seq<char>) -> Seq<
    char,
> {
    path_join(app, "lib"@) + ":"@ + path_join(path_join(app, "lib"@), triplet) + ":"@ + path_join(
        app,
        "lib64"@,
    ) + ":"@ + path_join(runtime, "lib"@) + ":"@ + path_join(path_join(runtime, "lib"@), triplet)
        + ":"@ + path_join(runtime, "lib64"@)
}

/// The host command that `flatpak-spawn` runs for a Flatpak worker.
pub open spec fn flatpak_host_arguments(
    app: Seq<char>,
    runtime: Seq<char>,
    loader: Seq<char>,
    triplet: Seq<char>,
) -> Seq<Seq<char>> {
    seq![
        "--host"@,
        "pkexec"@,
        "--disable-internal-agent"@,
        path_join(path_join(path_join(runtime, "lib"@), triplet), loader),
        "--library-path"@,
        flatpak_library_path(app, runtime, triplet),
        path_join(app, "bin/drosophila"@),
    ]
}

/// An absolute Unix path starts at the root.
pub open spec fn is_absolute(path: Seq<char>) -> bool {
    path.len() > 0 && path[0] == '/'
}

impl LinuxLaunch {
    /// The launch of a Flatpak worker on the host: `flatpak-spawn --host`
    /// runs `pkexec` on the runtime's dynamic loader with the app's worker
    /// executable, never a shell. The deployment's paths come from the
    /// sandbox's metadata and the architecture from the build.
    pub fn elevated_flatpak(
        arguments: &[String],
        app_path: &str,
        runtime_path: &str,
        architecture: &str,
    ) -> (r: Result<LinuxLaunch, LaunchError>)
        ensures
            !(is_absolute(app_path@) && is_absolute(runtime_path@)) ==> r == Err::<
                LinuxLaunch,
                LaunchError,
            >(LaunchError::NotAbsolute),
            is_absolute(app_path@) && is_absolute(runtime_path@) ==> match spec_linux_abi(
                architecture@,
            ) {
                None => r matches Err(LaunchError::UnsupportedArchitecture(a)) && a@
                    == architecture@,
                Some((loader, triplet)) => if app_path@.contains(':') || runtime_path@.contains(
                    ':',
                ) {
                    r == Err::<LinuxLaunch, LaunchError>(LaunchError::SeparatorInPath)
                } else {
                    r matches Ok(launch) && launch.executable@ == "flatpak-spawn"@ && string_views(
                        launch.arguments@,
                    ) == flatpak_host_arguments(app_path@, runtime_path@, loader, triplet)
                        + string_views(arguments@)
                },
            },
    {
        let app = chars_of(app_path);
        let runtime = chars_of(runtime_path);
        if !(app.len() > 0 && app[0] == '/' && runtime.len() > 0 && runtime[0] == '/') {
            return Err(LaunchError::NotAbsolute);
        }
        let (loader_name, triplet) = match flatpak_linux_abi(architecture) {
            Some(abi) => abi,
            None => return Err(LaunchError::UnsupportedArchitecture(architecture.to_owned())),
        };
        if first_index_of(app.as_slice(), ':').is_some() || first_index_of(runtime.as_slice(), ':').is_some() {
            return Err(LaunchError::SeparatorInPath);
        }
        assert(!app@.contains(':') && !runtime@.contains(':'));
        let runtime_lib = join_path(runtime.as_slice(), "lib");
        let runtime_arch = join_path(runtime_lib.as_slice(), triplet.as_str());
        let loader = join_path(runtime_arch.as_slice(), loader_name.as_str());
        let worker = join_path(app.as_slice(), "bin/drosophila");
        let app_lib = join_path(app.as_slice(), "lib");
        let app_arch = join_path(app_lib.as_slice(), triplet.as_str());
        let app_lib64 = join_path(app.as_slice(), "lib64");
        let runtime_lib64 = join_path(runtime.as_slice(), "lib64");
        proof {
            reveal_strlit(":");
        }
        let mut library_path: Vec<char> = Vec::new();
        extend_chars(&mut library_path, &app_lib);
        library_path.push(':');
        extend_chars(&mut library_path, &app_arch);
        library_path.push(':');
        extend_chars(&mut library_path, &app_lib64);
        library_path.push(':');
        extend_chars(&mut library_path, &runtime_lib);
        library_path.push(':');
        extend_chars(&mut library_path, &runtime_arch);
        library_path.push(':');
        extend_chars(&mut library_path, &runtime_lib64);
        assert(library_path@ =~= flatpak_library_path(app@, runtime@, triplet@));
        let mut host: Vec<String> = Vec::new();
        push_str(&mut host, "--host");
        push_str(&mut host, "pkexec");
        push_str(&mut host, "--disable-internal-agent");
        push_string(&mut host, string_from_chars(&loader));
        push_str(&mut host, "--library-path");
        push_string(&mut host, string_from_chars(&library_path));
        push_string(&mut host, string_from_chars(&worker));
        assert(string_views(host@) =~= flatpak_host_arguments(
            app_path@,
            runtime_path@,
            loader_name@,
            triplet@,
        ));
        push_all(&mut host, arguments);
        Ok(LinuxLaunch { executable: String::from_str("flatpak-spawn"), arguments: host })
    }
}

/// A command of the GUI to the worker; a start carries the front end's
/// settings (the node's own settings travel beside them).
#[derive(Clone, Debug, PartialEq, Eq)]
pub enum WorkerCommand {
    Start { config: GuiConfig },
    AddPeer { peer: String },
    RemovePeer { peer: String },
    Shutdown,
}

/// What a running worker does on a command.
#[derive(Clone, Debug, PartialEq, Eq)]
pub enum WorkerAction {
    /// Answer with an event and go on.
    Reply(WorkerEvent),
    AddPeer(String),
    RemovePeer(String),
    /// Close the node and end.
    Stop,
}

/// A running worker refuses a second start, applies peer changes, and ends
/// on shutdown.
pub fn running_worker_action(command: WorkerCommand) -> (r: WorkerAction)
    ensures
        match command {
            WorkerCommand::Start { .. } => r matches WorkerAction::Reply(WorkerEvent::OperationFailed {
                message,
            }) && message@ == "the privileged worker is already running TUN"@,
            WorkerCommand::AddPeer { peer } => r == WorkerAction::AddPeer(peer),
            WorkerCommand::RemovePeer { peer } => r == WorkerAction::RemovePeer(peer),
            WorkerCommand::Shutdown => r == WorkerAction::Stop,
        },
{
    match command {
        WorkerCommand::Start { .. } => WorkerAction::Reply(
            WorkerEvent::OperationFailed {
                message: String::from_str("the privileged worker is already running TUN"),
            },
        ),
        WorkerCommand::AddPeer { peer } => WorkerAction::AddPeer(peer),
        WorkerCommand::RemovePeer { peer } => WorkerAction::RemovePeer(peer),
        WorkerCommand::Shutdown => WorkerAction::Stop,
    }
}

/// The worker's first command must be a start; the worker runs its settings
/// with the TUN transport.
pub fn check_first_command(command: WorkerCommand) -> (r: Result<GuiConfig, String>)
    ensures
        match r {
            Ok(started) => command matches WorkerCommand::Start { config } && started == (
            GuiConfig { mode: ConnectionMode::Tun, ..config }),
            Err(message) => !(command is Start) && message@
                == "the first privileged worker command was not start"@,
        },
{
    match command {
        WorkerCommand::Start { config } => {
            let mut started = config;
            started.mode = ConnectionMode::Tun;
            Ok(started)
        },
        _ => Err(String::from_str("the first privileged worker command was not start")),
    }
}

/// The GUI's side of a worker connection, as far as the error that its end
/// reports depends on it.
#[derive(Clone, Debug, PartialEq, Eq)]
pub struct ParentConnection {
    /// A shutdown was sent, or the connection was told to let go.
    pub shutdown_sent: bool,
    /// The worker's last event was a failed start.
    pub startup_failure_reported: bool,
    /// What broke the connection, if anything did.
    pub connection_error: Option<String>,
}

/// The error that the end of a connection reports: none after a shutdown or
/// a reported failed start, else what broke it, else an unexpected exit.
pub open spec fn spec_disconnect_error(c: ParentConnection) -> Option<Seq<char>> {
    if c.shutdown_sent || c.startup_failure_reported {
        None
    } else {
        match c.connection_error {
            Some(e) => Some(e@),
            None => Some("the privileged TUN worker exited unexpectedly"@),
        }
    }
}

impl ParentConnection {
    /// A connection that has not ended.
    pub fn new() -> (r: ParentConnection)
        ensures
            !r.shutdown_sent,
            !r.startup_failure_reported,
            r.connection_error is None,
    {
        ParentConnection {
            shutdown_sent: false,
            startup_failure_reported: false,
            connection_error: None,
        }
    }

    /// A command to forward; a closed command channel means shutdown.
    pub fn command(&mut self, command: Option<WorkerCommand>) -> (r: WorkerCommand)
        ensures
            r == (match command {
                Some(c) => c,
                None => WorkerCommand::Shutdown,
            }),
            final(self).shutdown_sent == (r == WorkerCommand::Shutdown),
            final(self).startup_failure_reported == old(self).startup_failure_reported,
            final(self).connection_error == old(self).connection_error,
    {
        let command = match command {
            Some(c) => c,
            None => WorkerCommand::Shutdown,
        };
        self.shutdown_sent = match command {
            WorkerCommand::Shutdown => true,
            _ => false,
        };
        command
    }

    /// An event of the worker, which is passed on.
    pub fn event(&mut self, event: &WorkerEvent)
        ensures
            final(self).startup_failure_reported == (*event matches WorkerEvent::StartFailed { .. }),
            final(self).shutdown_sent == old(self).shutdown_sent,
            final(self).connection_error == old(self).connection_error,
    {
        self.startup_failure_reported = match event {
            WorkerEvent::StartFailed { .. } => true,
            _ => false,
        };
    }

    /// The connection broke; it ends here.
    pub fn broke(&mut self, error: String)
        ensures
            final(self).connection_error == Some(error),
            final(self).shutdown_sent == old(self).shutdown_sent,
            final(self).startup_failure_reported == old(self).startup_failure_reported,
    {
        self.connection_error = Some(error);
    }

    /// The GUI let go of a worker that did not stop in time.
    pub fn let_go(&mut self)
        ensures
            final(self).shutdown_sent,
            final(self).startup_failure_reported == old(self).startup_failure_reported,
            final(self).connection_error == old(self).connection_error,
    {
        self.shutdown_sent = true;
    }

    /// The error reported when the connection ends.
    pub fn disconnect_error(&self) -> (r: Option<String>)
        ensures
            match (r, spec_disconnect_error(*self)) {
                (Some(a), Some(b)) => a@ == b,
                (None, None) => true,
                _ => false,
            },
    {
        if self.shutdown_sent || self.startup_failure_reported {
            None
        } else {
            match &self.connection_error {
                Some(e) => Some(e.clone()),
                None => Some(String::from_str("the privileged TUN worker exited unexpectedly")),
            }
        }
    }
}

} // verus!
