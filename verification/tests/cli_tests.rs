use zap::cli::{parse_u16, parse_u64, Cli, Commands};

fn args(list: &[&str]) -> Vec<String> {
    list.iter().map(|s| s.to_string()).collect()
}

#[test]
fn parse_send_with_options() {
    let cli = Cli::parse_args(&args(&["send", "notes.txt", "-c", "my-code", "-w", "4", "--no-tui"]))
        .unwrap();
    assert!(cli.no_tui);
    assert!(!cli.verbose);
    assert_eq!(cli.port, None);
    match cli.command {
        Commands::Send { path, code, words } => {
            assert_eq!(path.as_deref(), Some("notes.txt"));
            assert_eq!(code.as_deref(), Some("my-code"));
            assert_eq!(words, 4);
        }
        _ => panic!("expected the send command"),
    }
}

#[test]
fn parse_send_defaults() {
    let cli = Cli::parse_args(&args(&["send"])).unwrap();
    match cli.command {
        Commands::Send { path, code, words } => {
            assert_eq!(path, None);
            assert_eq!(code, None);
            assert_eq!(words, 3);
        }
        _ => panic!("expected the send command"),
    }
}

#[test]
fn parse_receive_with_options() {
    let cli = Cli::parse_args(&args(&[
        "receive",
        "alpha-bravo-charlie",
        "-o",
        "out.bin",
        "-r",
        "-p",
        "9998",
        "-v",
    ]))
    .unwrap();
    assert!(cli.verbose);
    assert_eq!(cli.port, Some(9998));
    match cli.command {
        Commands::Receive { code, output, resume } => {
            assert_eq!(code, "alpha-bravo-charlie");
            assert_eq!(output.as_deref(), Some("out.bin"));
            assert!(resume);
        }
        _ => panic!("expected the receive command"),
    }
}

#[test]
fn parse_rejects_bad_invocations() {
    assert!(Cli::parse_args(&args(&[])).is_err());
    assert!(Cli::parse_args(&args(&["push", "x"])).is_err());
    assert!(Cli::parse_args(&args(&["receive"])).is_err());
    assert!(Cli::parse_args(&args(&["send", "-p"])).is_err());
    assert!(Cli::parse_args(&args(&["send", "-p", "99999"])).is_err());
    assert!(Cli::parse_args(&args(&["send", "a", "b"])).is_err());
}

#[test]
fn number_parsing_exact() {
    assert_eq!(parse_u64("0"), Some(0));
    assert_eq!(parse_u64("18446744073709551615"), Some(u64::MAX));
    assert_eq!(parse_u64("18446744073709551616"), None);
    assert_eq!(parse_u64(""), None);
    assert_eq!(parse_u64("12a"), None);
    assert_eq!(parse_u16("65535"), Some(65535));
    assert_eq!(parse_u16("65536"), None);
    assert_eq!(parse_u16("9999"), Some(9999));
}
