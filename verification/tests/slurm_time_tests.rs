use ssubmit::Duration;
use ssubmit::SlurmTime;

#[test]
fn test_to_slurm_zero() {
    let one_milli = Duration::from_millis(0);

    let actual = one_milli.to_slurm_time();
    let expected = "0";

    assert_eq!(actual, expected)
}

#[test]
fn test_to_slurm_less_than_one_second() {
    let one_milli = Duration::from_millis(6);

    let actual = one_milli.to_slurm_time();
    let expected = "0:1";

    assert_eq!(actual, expected)
}

#[test]
fn test_to_slurm_less_than_one_minute() {
    let secs = Duration::from_secs(6);

    let actual = secs.to_slurm_time();
    let expected = "0:6";

    assert_eq!(actual, expected)
}

#[test]
fn test_to_slurm_less_than_one_hour() {
    let secs = Duration::from_secs(64);

    let actual = secs.to_slurm_time();
    let expected = "1:4";

    assert_eq!(actual, expected)
}

#[test]
fn test_to_slurm_minutes_with_remainder() {
    let secs = Duration::from_secs(666);

    let actual = secs.to_slurm_time();
    let expected = "11:6";

    assert_eq!(actual, expected)
}

#[test]
fn test_to_slurm_even_minutes() {
    let secs = Duration::from_secs(60);

    let actual = secs.to_slurm_time();
    let expected = "1:0";

    assert_eq!(actual, expected)
}

#[test]
fn test_to_slurm_even_hours() {
    let secs = Duration::from_secs(60 * 60 * 4);

    let actual = secs.to_slurm_time();
    let expected = "4:0:0";

    assert_eq!(actual, expected)
}

#[test]
fn test_to_slurm_hours_with_remainder() {
    let secs = Duration::from_secs(9042);

    let actual = secs.to_slurm_time();
    let expected = "2:30:42";

    assert_eq!(actual, expected)
}

#[test]
fn test_to_slurm_over_a_day() {
    let secs = Duration::from_secs(561677);

    let actual = secs.to_slurm_time();
    let expected = "156:1:17";

    assert_eq!(actual, expected)
}

#[test]
fn test_to_slurm_from_nanos_rounds_up() {
    let tiny = Duration::from_nanos(999);

    let actual = tiny.to_slurm_time();
    let expected = "0:1";

    assert_eq!(actual, expected)
}
