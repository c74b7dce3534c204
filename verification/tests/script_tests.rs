use ssubmit::make_submission_script;

#[test]
fn test_make_submission_script() {
    let shebang = "#/bin/bash";
    let set = "eux";
    let name = "job";
    let memory = "1M";
    let time = "5:56:00";
    let error = "%x.err";
    let output = "%x.out";
    let cmd = "python -c 'print(1+1)'";

    let actual = make_submission_script(shebang, set, name, memory, time, error, output, cmd);
    let expected = format!(
        r#"{shebang}
#SBATCH --job-name={name}
#SBATCH --mem={memory}
#SBATCH --time={time}
#SBATCH --error={error}
#SBATCH --output={output}
set -{set}

{cmd}
"#
    );
    assert_eq!(actual, expected)
}

#[test]
fn test_make_submission_script_no_set() {
    let shebang = "#/bin/bash";
    let set = "";
    let name = "job";
    let memory = "1M";
    let time = "5:56:00";
    let error = "%x.err";
    let output = "%x.out";
    let cmd = "python -c 'print(1+1)'";

    let actual = make_submission_script(shebang, set, name, memory, time, error, output, cmd);
    let expected = format!(
        r#"{shebang}
#SBATCH --job-name={name}
#SBATCH --mem={memory}
#SBATCH --time={time}
#SBATCH --error={error}
#SBATCH --output={output}


{cmd}
"#
    );
    assert_eq!(actual, expected)
}

#[test]
fn test_make_submission_script_mem_is_zero() {
    let shebang = "#/bin/bash";
    let set = "";
    let name = "job";
    let memory = "0";
    let time = "5:56:00";
    let error = "%x.err";
    let output = "%x.out";
    let cmd = "python -c 'print(1+1)'";

    let actual = make_submission_script(shebang, set, name, memory, time, error, output, cmd);
    let expected = format!(
        r#"{shebang}
#SBATCH --job-name={name}
#SBATCH --time={time}
#SBATCH --error={error}
#SBATCH --output={output}


{cmd}
"#
    );
    assert_eq!(actual, expected)
}

#[test]
fn test_make_submission_script_end_to_end() {
    let actual = make_submission_script(
        "#!/bin/bash",
        "eux",
        "job",
        "1M",
        "5:56:00",
        "%x.err",
        "%x.out",
        "python -c 'print(1+1)'",
    );
    let expected = "#!/bin/bash\n\
#SBATCH --job-name=job\n\
#SBATCH --mem=1M\n\
#SBATCH --time=5:56:00\n\
#SBATCH --error=%x.err\n\
#SBATCH --output=%x.out\n\
set -eux\n\
\n\
python -c 'print(1+1)'\n";
    assert_eq!(actual, expected)
}

#[test]
fn test_make_submission_script_mem_zero_drops_one_line_only() {
    let with_mem =
        make_submission_script("#!/bin/sh", "eu", "j", "2M", "1:0", "e", "o", "run --mem stuff");
    let without =
        make_submission_script("#!/bin/sh", "eu", "j", "0", "1:0", "e", "o", "run --mem stuff");

    let with_lines: Vec<&str> = with_mem.lines().collect();
    let without_lines: Vec<&str> = without.lines().collect();

    assert_eq!(with_lines.len(), without_lines.len() + 1);
    assert_eq!(
        with_lines.iter().filter(|l| l.starts_with("#SBATCH --mem=")).count(),
        1
    );
    assert_eq!(
        without_lines.iter().filter(|l| l.starts_with("#SBATCH --mem=")).count(),
        0
    );
    // Every other line, the command line included, is preserved verbatim.
    let mut rebuilt: Vec<&str> = with_lines.clone();
    rebuilt.remove(2);
    assert_eq!(rebuilt, without_lines);
}
