use drosophila::config::{ConnectionMode, GuiConfig};
use drosophila::net::parse_socket_address;
use drosophila::privileged::{
    check_first_command, flatpak_linux_abi, hello_accepted, hex_token, invoking_user, random_token,
    running_worker_action, LaunchError, LinuxLaunch, ParentConnection, WorkerAction,
    WorkerArguments, WorkerArgumentsError, WorkerCommand, WorkerEvent, PROTOCOL_VERSION,
    WORKER_FLAG,
};

#[test]
fn worker_arguments_require_loopback_and_strong_token() {
    let token = "ab".repeat(32);
    let parsed = WorkerArguments::from_parts("127.0.0.1:1234", token.clone()).unwrap();
    assert_eq!(parsed.endpoint, parse_socket_address("127.0.0.1:1234").unwrap());
    assert_eq!(parsed.token, token);

    assert!(WorkerArguments::from_parts("192.0.2.1:1234", "ab".repeat(32)).is_err());
}

#[test]
fn worker_arguments_name_each_refusal() {
    assert_eq!(
        WorkerArguments::from_parts("localhost:1234", "ab".repeat(32)).unwrap_err(),
        WorkerArgumentsError::InvalidEndpoint
    );
    assert_eq!(
        WorkerArguments::from_parts("192.0.2.1:1234", "ab".repeat(32)).unwrap_err(),
        WorkerArgumentsError::NotLoopback
    );
    assert_eq!(
        WorkerArguments::from_parts("[::1]:1234", "ab".repeat(31)).unwrap_err(),
        WorkerArgumentsError::InvalidToken
    );
    assert_eq!(
        WorkerArguments::from_parts("127.0.0.1:1234", "xy".repeat(32)).unwrap_err(),
        WorkerArgumentsError::InvalidToken
    );
    assert!(WorkerArguments::from_parts("[::1]:1234", "AB".repeat(32)).is_ok());
    assert_eq!(
        WorkerArgumentsError::NotLoopback.message(),
        "the privileged worker endpoint must be on loopback"
    );
}

#[test]
fn worker_is_requested_by_its_flag() {
    let arguments = vec!["drosophila".to_owned(), WORKER_FLAG.to_owned(), "127.0.0.1:9".to_owned()];
    assert!(WorkerArguments::requested(&arguments));
    assert!(!WorkerArguments::requested(&["drosophila".to_owned()]));
    assert!(!WorkerArguments::requested(&["drosophila".to_owned(), "--debug".to_owned()]));
    let parsed = WorkerArguments::parse_worker_arguments(&arguments, "0f".repeat(32)).unwrap();
    assert_eq!(parsed.endpoint, parse_socket_address("127.0.0.1:9").unwrap());
    assert_eq!(
        WorkerArguments::parse_worker_arguments(&arguments[..2], "0f".repeat(32)).unwrap_err(),
        WorkerArgumentsError::InvalidArguments
    );
}

#[test]
fn tokens_are_lowercase_hex_and_accepted() {
    let mut bytes = [0u8; 32];
    bytes[0] = 0xab;
    bytes[31] = 0x0f;
    let token = hex_token(&bytes);
    assert_eq!(token.len(), 64);
    assert!(token.starts_with("ab00"));
    assert!(token.ends_with("000f"));
    let fresh = random_token().unwrap();
    assert_eq!(hex_token(&[0x01, 0xfe]), "01fe");
    assert_eq!(hex_token(&[]), "");
    assert_eq!(fresh.len(), 64);
    assert!(fresh.bytes().all(|b| b.is_ascii_hexdigit()));
    assert!(WorkerArguments::from_parts("127.0.0.1:1", fresh).is_ok());
}

#[test]
fn hello_needs_version_and_token() {
    assert!(hello_accepted(PROTOCOL_VERSION, "abc", "abc"));
    assert!(!hello_accepted(PROTOCOL_VERSION + 1, "abc", "abc"));
    assert!(!hello_accepted(PROTOCOL_VERSION, "abd", "abc"));
}

#[test]
fn pkexec_launch_keeps_arguments() {
    let arguments = vec![WORKER_FLAG.to_owned(), "127.0.0.1:1234".to_owned()];
    let launch = LinuxLaunch::elevated("/usr/bin/drosophila", &arguments);
    assert_eq!(launch.executable, "pkexec");
    assert_eq!(
        launch.arguments,
        vec!["--disable-internal-agent", "/usr/bin/drosophila", WORKER_FLAG, "127.0.0.1:1234"]
    );
}

#[test]
fn flatpak_worker_uses_pinned_app_and_runtime_without_a_shell() {
    let arguments = vec![
        WORKER_FLAG.to_owned(),
        "127.0.0.1:1234".to_owned(),
        "$(touch /tmp/not-a-command)".to_owned(),
    ];

    let launch = LinuxLaunch::elevated_flatpak(
        &arguments,
        "/var/lib/flatpak/app/io.github.ergolyam.Drosophila/commit/files",
        "/var/lib/flatpak/runtime/org.gnome.Platform/commit/files",
        "x86_64",
    )
    .unwrap();

    assert_eq!(launch.executable, "flatpak-spawn");
    assert_eq!(launch.arguments[0], "--host");
    assert_eq!(launch.arguments[1], "pkexec");
    let (loader_name, linux_triplet) = flatpak_linux_abi("x86_64").unwrap();
    assert_eq!(
        launch.arguments[3],
        format!("/var/lib/flatpak/runtime/org.gnome.Platform/commit/files/lib/{linux_triplet}/{loader_name}")
    );
    assert!(
        !launch
            .arguments
            .iter()
            .any(|argument| argument == "/bin/sh" || argument == "-c")
    );
    assert_eq!(
        launch.arguments.last(),
        Some(&"$(touch /tmp/not-a-command)".to_owned())
    );
    assert!(launch.arguments.iter().any(|argument| {
        argument == "/var/lib/flatpak/app/io.github.ergolyam.Drosophila/commit/files/bin/drosophila"
    }));
    assert_eq!(
        launch.arguments[5],
        "/var/lib/flatpak/app/io.github.ergolyam.Drosophila/commit/files/lib:\
         /var/lib/flatpak/app/io.github.ergolyam.Drosophila/commit/files/lib/x86_64-linux-gnu:\
         /var/lib/flatpak/app/io.github.ergolyam.Drosophila/commit/files/lib64:\
         /var/lib/flatpak/runtime/org.gnome.Platform/commit/files/lib:\
         /var/lib/flatpak/runtime/org.gnome.Platform/commit/files/lib/x86_64-linux-gnu:\
         /var/lib/flatpak/runtime/org.gnome.Platform/commit/files/lib64"
    );
}

#[test]
fn flatpak_worker_rejects_non_absolute_deployment_paths() {
    assert_eq!(
        LinuxLaunch::elevated_flatpak(&[], "relative", "/runtime", "x86_64").unwrap_err(),
        LaunchError::NotAbsolute
    );
}

#[test]
fn flatpak_worker_needs_a_known_architecture_and_no_separator() {
    assert_eq!(
        LinuxLaunch::elevated_flatpak(&[], "/app", "/runtime", "riscv64").unwrap_err(),
        LaunchError::UnsupportedArchitecture("riscv64".to_owned())
    );
    assert_eq!(
        LaunchError::UnsupportedArchitecture("riscv64".to_owned()).message(),
        "Flatpak TUN is not supported on Linux architecture riscv64"
    );
    assert_eq!(
        LinuxLaunch::elevated_flatpak(&[], "/a:b", "/runtime", "aarch64").unwrap_err(),
        LaunchError::SeparatorInPath
    );
    let launch = LinuxLaunch::elevated_flatpak(&[], "/app/", "/runtime", "aarch64").unwrap();
    assert_eq!(launch.arguments[3], "/runtime/lib/aarch64-linux-gnu/ld-linux-aarch64.so.1");
    assert_eq!(launch.arguments[6], "/app/bin/drosophila");
    assert_eq!(launch.arguments.len(), 7);
}

#[test]
fn running_worker_refuses_a_second_start() {
    match running_worker_action(WorkerCommand::Start { config: GuiConfig::default() }) {
        WorkerAction::Reply(WorkerEvent::OperationFailed { message }) => {
            assert_eq!(message, "the privileged worker is already running TUN")
        }
        other => panic!("unexpected {other:?}"),
    }
    assert_eq!(
        running_worker_action(WorkerCommand::AddPeer { peer: "tcp://a:1".to_owned() }),
        WorkerAction::AddPeer("tcp://a:1".to_owned())
    );
    assert_eq!(running_worker_action(WorkerCommand::Shutdown), WorkerAction::Stop);
    let mut config = GuiConfig::default();
    config.mode = ConnectionMode::Proxy;
    config.dns_port = 5353;
    let started = check_first_command(WorkerCommand::Start { config: config.clone() }).unwrap();
    assert_eq!(started.mode, ConnectionMode::Tun);
    assert_eq!(started.dns_port, 5353);
    assert_eq!(started.proxy_listen, config.proxy_listen);
    assert_eq!(
        check_first_command(WorkerCommand::Shutdown).unwrap_err(),
        "the first privileged worker command was not start"
    );
}

#[test]
fn disconnection_error_depends_on_how_the_connection_ended() {
    let mut connection = ParentConnection::new();
    assert_eq!(
        connection.disconnect_error(),
        Some("the privileged TUN worker exited unexpectedly".to_owned())
    );
    connection.broke("reading from the privileged TUN worker: reset".to_owned());
    assert_eq!(
        connection.disconnect_error(),
        Some("reading from the privileged TUN worker: reset".to_owned())
    );
    connection.event(&WorkerEvent::StartFailed { message: "no".to_owned() });
    assert_eq!(connection.disconnect_error(), None);
    connection.event(&WorkerEvent::Started { address: "a".to_owned(), subnet: "b".to_owned() });
    assert!(connection.disconnect_error().is_some());
    assert_eq!(connection.command(None), WorkerCommand::Shutdown);
    assert_eq!(connection.disconnect_error(), None);

    let mut other = ParentConnection::new();
    other.let_go();
    assert_eq!(other.disconnect_error(), None);
}

#[test]
fn invoking_user_is_a_u32() {
    assert_eq!(invoking_user("1000"), Some(1000));
    assert_eq!(invoking_user("+0"), Some(0));
    assert_eq!(invoking_user("4294967295"), Some(u32::MAX));
    assert_eq!(invoking_user("4294967296"), None);
    assert_eq!(invoking_user("-1"), None);
    assert_eq!(invoking_user(""), None);
    assert_eq!(invoking_user(" 1000"), None);
}
