use skope::analytics::server::{parse_port, port_string, resolve_host, resolve_port, PortError, Server, DEFAULT_PORT};
use skope::cli::commands::{Cli, Commands};
use skope::runner::cli::{BashScript, Executable};

#[test]
fn ports_are_read_as_u16_parse_reads_them() {
    for s in ["9001", "+9001", "0", "00080", "65535", "65536", "", "+", "-1", "9a", " 1", "123456789"] {
        assert_eq!(parse_port(s), s.parse::<u16>().ok(), "{s}");
    }
}

#[test]
fn ports_round_trip() {
    for p in [0u16, 7, 10, 9001, 65535] {
        assert_eq!(port_string(p), p.to_string());
        assert_eq!(parse_port(&port_string(p)), Some(p));
    }
}

#[test]
fn host_and_port_resolution() {
    assert_eq!(resolve_host(Some("h".into()), Some("e".into())), "h");
    assert_eq!(resolve_host(None, Some("e".into())), "e");
    assert_eq!(resolve_host(None, None), "localhost");
    assert_eq!(resolve_port(Some(1), Some("2")), Ok(1));
    assert_eq!(resolve_port(None, Some("2")), Ok(2));
    assert_eq!(resolve_port(None, Some("port")), Err(PortError::InvalidPort));
    assert_eq!(resolve_port(None, None), Ok(DEFAULT_PORT));
    assert_eq!(DEFAULT_PORT, 9001);
}

#[test]
fn server_binding() {
    let server = Server::new("127.0.0.1".to_string(), 9001, ());
    assert_eq!(server.binding(), "127.0.0.1:9001");
    let default: Server<()> = Server::default();
    assert_eq!(default.host, "localhost");
    assert_eq!(default.port, 9001);
    assert_eq!(default.binding(), "localhost:9001");
}

#[test]
fn cli_and_script() {
    let cli = Cli::new(Commands::Diff { base: "a".into(), head: "b".into() }, None, Some(1));
    assert_eq!(cli.command, Commands::Diff { base: "a".into(), head: "b".into() });
    assert_eq!(cli.port, Some(1));
    let script = BashScript::new("run_app.sh");
    assert_eq!(script.path, "run_app.sh");
    assert_eq!(script.get_location(), "run_app.sh");
}
