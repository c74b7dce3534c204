use ssubmit::cli::is_estimate_line;
use ssubmit::Cli;

fn base_cli() -> Cli {
    Cli {
        name: "test".to_string(),
        command: None,
        remainder: vec![],
        output: "%x.out".to_string(),
        error: "%x.err".to_string(),
        memory: "1G".to_string(),
        time: "1d".to_string(),
        shebang: "#!/usr/bin/env bash".to_string(),
        set: "euxo pipefail".to_string(),
        dry_run: false,
        test_only: false,
        interactive: false,
        shell: "bash".to_string(),
        export: "ALL".to_string(),
    }
}

#[test]
fn test_validate_and_get_command_interactive_no_command() {
    let cli = Cli {
        interactive: true,
        shell: "zsh".to_string(),
        ..base_cli()
    };

    let result = cli.validate_and_get_command("bash").unwrap();
    assert_eq!(result, "srun --pty zsh -l");
}

#[test]
fn test_validate_and_get_command_interactive_with_command() {
    let cli = Cli {
        command: Some("custom command".to_string()),
        interactive: true,
        ..base_cli()
    };

    let result = cli.validate_and_get_command("bash").unwrap();
    assert_eq!(result, "custom command");
}

#[test]
fn test_validate_and_get_command_batch_no_command() {
    let cli = base_cli();

    let result = cli.validate_and_get_command("bash");
    assert!(result.is_err());
    assert_eq!(
        result.unwrap_err(),
        "Command is required for batch jobs. Use --interactive for interactive sessions."
    );
}

#[test]
fn test_validate_and_get_command_batch_with_command() {
    let cli = Cli {
        command: Some("batch command".to_string()),
        ..base_cli()
    };

    let result = cli.validate_and_get_command("bash").unwrap();
    assert_eq!(result, "batch command");
}

#[test]
fn test_validate_and_get_command_interactive_auto_uses_user_shell() {
    let cli = Cli {
        interactive: true,
        shell: "auto".to_string(),
        ..base_cli()
    };

    let result = cli.validate_and_get_command("/usr/bin/fish").unwrap();
    assert_eq!(result, "srun --pty /usr/bin/fish -l");
}

#[test]
fn test_build_salloc_args() {
    let cli = Cli {
        name: "sesh".to_string(),
        memory: "5G".to_string(),
        time: "8:0:0".to_string(),
        remainder: vec!["--partition=general".to_string(), "--qos=normal".to_string()],
        ..base_cli()
    };

    let args = cli.build_salloc_args("srun --pty bash -l");
    assert_eq!(
        args,
        vec![
            "--job-name",
            "sesh",
            "--mem",
            "5G",
            "--time",
            "8:0:0",
            "--partition=general",
            "--qos=normal",
            "srun --pty bash -l",
        ]
    );
}

#[test]
fn test_is_estimate_line() {
    assert!(is_estimate_line("sbatch: Job 123456 to start at 2024-01-01T00:00:00"));
    assert!(!is_estimate_line("sbatch: error: invalid partition"));
    assert!(!is_estimate_line(""));
}
