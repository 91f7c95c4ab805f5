use subtitle_renamer::cli::{Cli, CliError, Target};

fn arguments() -> Cli {
    Cli {
        dir: ".".to_string(),
        dry_run: false,
        ssh: false,
        ssh_host: "localhost".to_string(),
        ssh_port: 22,
        ssh_user: None,
        ssh_password: None,
        ssh_key: None,
        remote_dir: None,
    }
}

#[test]
fn without_ssh_the_target_is_the_local_directory() {
    let mut cli = arguments();
    cli.dir = "/srv/films".to_string();
    cli.ssh_user = Some("ignored".to_string());
    match cli.target() {
        Ok(Target::Local { directory }) => assert_eq!(directory, "/srv/films"),
        _ => panic!("a local run was asked for"),
    }
}

#[test]
fn ssh_without_a_user_is_refused() {
    let mut cli = arguments();
    cli.ssh = true;
    cli.ssh_password = Some("SECRET-REDACTED".to_string());
    match cli.target() {
        Err(error) => assert_eq!(error, CliError::MissingRemoteUser),
        Ok(_) => panic!("a session without a user was accepted"),
    }
}

#[test]
fn ssh_with_a_user_is_a_remote_session() {
    let mut cli = arguments();
    cli.ssh = true;
    cli.ssh_host = "nas.example".to_string();
    cli.ssh_port = 2222;
    cli.ssh_user = Some("media".to_string());
    cli.ssh_key = Some("/home/media/.ssh/id_ed25519".to_string());
    cli.remote_dir = Some("/volume1/films".to_string());
    match cli.target() {
        Ok(Target::Remote(session)) => {
            assert_eq!(session.host, "nas.example");
            assert_eq!(session.port, 2222);
            assert_eq!(session.username, "media");
            assert_eq!(session.password, None);
            assert_eq!(session.key, Some("/home/media/.ssh/id_ed25519".to_string()));
            assert_eq!(session.directory, Some("/volume1/films".to_string()));
        },
        _ => panic!("a remote session was asked for"),
    }
}
