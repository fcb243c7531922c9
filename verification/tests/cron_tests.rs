use cron_manager::cron::{crontab_text, parse_crontab, try_parse_job};
use cron_manager::models::JobSource;

#[test]
fn try_parse_job_splits_five_fields() {
    let job = try_parse_job(7, "0 7 * * * /path/to/script.sh --flag", true, JobSource::Cron).unwrap();
    assert_eq!(job.id, 7);
    assert_eq!(job.schedule, "0 7 * * *");
    assert_eq!(job.command, "/path/to/script.sh --flag");
    assert_eq!(job.name, "Script");
    assert!(job.enabled);
    assert_eq!(job.source, JobSource::Cron);
    assert!(job.last_run.is_none() && job.last_status.is_none() && job.last_duration.is_none());
    assert!(job.logs.is_empty());
}

#[test]
fn try_parse_job_splits_at_each_whitespace_character() {
    let job = try_parse_job(0, "0 7 * * *   /path/to/script.sh", false, JobSource::Cron).unwrap();
    assert_eq!(job.schedule, "0 7 * * *");
    assert_eq!(job.command, "  /path/to/script.sh");
    assert!(try_parse_job(0, "0  7 * * * cmd", false, JobSource::Cron).is_none());
    let job = try_parse_job(0, "1\t2 3 4 5 x", false, JobSource::Cron).unwrap();
    assert_eq!(job.schedule, "1 2 3 4 5");
}

#[test]
fn try_parse_job_needs_six_pieces() {
    assert!(try_parse_job(0, "0 7 * * *", true, JobSource::Cron).is_none());
    assert!(try_parse_job(0, "SHELL=/bin/bash", true, JobSource::Cron).is_none());
    assert!(try_parse_job(0, "", true, JobSource::Cron).is_none());
    let job = try_parse_job(0, "1 2 3 4 5 ", true, JobSource::Cron).unwrap();
    assert_eq!(job.command, "");
    assert_eq!(job.name, "Unknown");
}

#[test]
fn try_parse_job_keeps_source() {
    let src = JobSource::Launchd { label: "l".to_string(), plist_path: "/p".to_string() };
    let job = try_parse_job(3, "1 2 3 4 5 echo", true, src.clone()).unwrap();
    assert_eq!(job.source, src);
}

#[test]
fn parse_crontab_sorts_jobs_and_preamble() {
    let content = "SHELL=/bin/bash\n0 7 * * * /path/to/script.sh\n# 0 0 * * 0 find /tmp -delete\n# plain comment\n\n30 8 * * 1-5 /usr/local/bin/my-job\n";
    let (jobs, preamble) = parse_crontab(content);
    assert_eq!(jobs.len(), 3);
    assert_eq!(jobs[0].id, 0);
    assert_eq!(jobs[0].schedule, "0 7 * * *");
    assert!(jobs[0].enabled);
    assert_eq!(jobs[1].id, 1);
    assert_eq!(jobs[1].schedule, "0 0 * * 0");
    assert_eq!(jobs[1].command, "find /tmp -delete");
    assert!(!jobs[1].enabled);
    assert_eq!(jobs[2].command, "/usr/local/bin/my-job");
    assert_eq!(jobs[2].name, "my-job");
    assert_eq!(preamble, vec!["SHELL=/bin/bash", "# plain comment", ""]);
}

#[test]
fn parse_crontab_keeps_lines_as_they_stand() {
    let (jobs, preamble) = parse_crontab("  FOO=1  \r\n\t# note\n   \n");
    assert!(jobs.is_empty());
    assert_eq!(preamble, vec!["  FOO=1  ", "\t# note", "   "]);
}

#[test]
fn parse_crontab_trims_job_lines() {
    let (jobs, preamble) = parse_crontab("   #   5 4 * * * echo hi   \n\t1 2 3 4 5 run\r\n");
    assert!(preamble.is_empty());
    assert_eq!(jobs[0].schedule, "5 4 * * *");
    assert_eq!(jobs[0].command, "echo hi");
    assert!(!jobs[0].enabled);
    assert_eq!(jobs[1].command, "run");
    assert!(jobs[1].enabled);
}

#[test]
fn parse_crontab_of_empty_text() {
    let (jobs, preamble) = parse_crontab("");
    assert!(jobs.is_empty());
    assert!(preamble.is_empty());
    let (jobs, preamble) = parse_crontab("\n");
    assert!(jobs.is_empty());
    assert_eq!(preamble, vec![""]);
}

#[test]
fn crontab_text_writes_preamble_then_jobs() {
    let (jobs, _) = parse_crontab("0 7 * * * a.sh\n# 0 0 * * 0 b.sh\n");
    let text = crontab_text(&["SHELL=/bin/sh".to_string(), "".to_string()], &jobs);
    assert_eq!(text, "SHELL=/bin/sh\n\n0 7 * * * a.sh\n# 0 0 * * 0 b.sh\n");
}

#[test]
fn crontab_text_of_nothing_is_one_newline() {
    assert_eq!(crontab_text(&[], &[]), "\n");
}

#[test]
fn crontab_round_trip_keeps_jobs_and_preamble() {
    let content = "MAILTO=me@example.com\n# keep me\n0 7 * * * /path/to/script.sh\n# 0 0 * * 0 find /tmp -type f -mtime +7 -delete\n30 8 * * 1-5 /usr/local/bin/my-job --x\n";
    let (jobs, preamble) = parse_crontab(content);
    let text = crontab_text(&preamble, &jobs);
    assert_eq!(text, content);
    let (jobs2, preamble2) = parse_crontab(&text);
    assert_eq!(preamble2, preamble);
    assert_eq!(jobs2.len(), jobs.len());
    for (a, b) in jobs.iter().zip(jobs2.iter()) {
        assert_eq!(a.schedule, b.schedule);
        assert_eq!(a.command, b.command);
        assert_eq!(a.enabled, b.enabled);
        assert_eq!(a.id, b.id);
    }
}

#[test]
fn crontab_reenabled_job_is_written_uncommented() {
    let (mut jobs, preamble) = parse_crontab("# 0 0 * * 0 cleanup.sh\n");
    jobs[0].enabled = true;
    assert_eq!(crontab_text(&preamble, &jobs), "0 0 * * 0 cleanup.sh\n");
}

#[test]
fn readme_examples_parse_as_jobs() {
    let content = "# Every day at 07:00\n0 7 * * *   /path/to/script.sh\n\n# Every Sunday at midnight\n0 0 * * 0   find /tmp -type f -mtime +7 -delete\n\n# Every weekday at 08:30\n30 8 * * 1-5  /usr/local/bin/my-job\n";
    let (jobs, preamble) = parse_crontab(content);
    assert_eq!(jobs.len(), 3);
    assert_eq!(jobs[0].schedule, "0 7 * * *");
    assert_eq!(jobs[0].command, "  /path/to/script.sh");
    assert_eq!(jobs[0].name, "Script");
    assert_eq!(jobs[1].schedule, "0 0 * * 0");
    assert_eq!(jobs[1].name, "find");
    assert_eq!(jobs[2].schedule, "30 8 * * 1-5");
    assert_eq!(jobs[2].command, " /usr/local/bin/my-job");
    assert_eq!(
        preamble,
        vec!["# Every day at 07:00", "", "# Every Sunday at midnight", "", "# Every weekday at 08:30"]
    );
    assert_eq!(cron_manager::util::human_schedule(&jobs[0].schedule), "Daily at 07:00");
    assert_eq!(cron_manager::util::human_schedule(&jobs[1].schedule), "Sun at 00:00");
}

#[test]
fn unicode_whitespace_separates_fields() {
    let job = try_parse_job(0, "0\u{3000}7\u{a0}*\u{2003}*\u{85}* run it", true, JobSource::Cron).unwrap();
    assert_eq!(job.schedule, "0 7 * * *");
    assert_eq!(job.command, "run it");
    let (jobs, _) = parse_crontab("\u{2028}1 2 3 4 5 x\u{3000}\n");
    assert_eq!(jobs[0].command, "x");
}

#[test]
fn carriage_return_kept_without_newline() {
    let (_, preamble) = parse_crontab("X=1\r\nY=2\r");
    assert_eq!(preamble, vec!["X=1", "Y=2\r"]);
}

#[test]
fn every_line_is_a_job_or_preamble() {
    let content = "a\n1 2 3 4 5 b\n# 1 2 3 4 5 c\n#\n  \nd e f g h\n";
    let (jobs, preamble) = parse_crontab(content);
    assert_eq!(jobs.len() + preamble.len(), content.lines().count());
    assert_eq!(preamble, vec!["a", "#", "  ", "d e f g h"]);
}

#[test]
fn schedule_fields_must_be_cron_fields() {
    assert!(try_parse_job(0, "a b c d e f", true, JobSource::Cron).is_none());
    assert!(try_parse_job(0, "Run the nightly backup for the main db", false, JobSource::Cron).is_none());
    let job = try_parse_job(0, "*/15 0-6 1,15 jan Mon cmd", true, JobSource::Cron).unwrap();
    assert_eq!(job.schedule, "*/15 0-6 1,15 jan Mon");
    let job = try_parse_job(0, "0 0 * DEC sAt cmd", true, JobSource::Cron).unwrap();
    assert_eq!(job.schedule, "0 0 * DEC sAt");
    assert!(try_parse_job(0, "0 0 * January * cmd", true, JobSource::Cron).is_none());
    assert!(try_parse_job(0, "0 0 mon * * cmd", true, JobSource::Cron).is_none());
    assert!(try_parse_job(0, "0 0 * * jan cmd", true, JobSource::Cron).is_none());
    assert!(try_parse_job(0, "0 7 * * *x cmd", true, JobSource::Cron).is_none());
}

#[test]
fn plain_comment_stays_in_preamble() {
    let content = "# Run the nightly backup for the main db
#x  spaced   out comment with many words
";
    let (jobs, preamble) = parse_crontab(content);
    assert!(jobs.is_empty());
    assert_eq!(preamble, vec!["# Run the nightly backup for the main db", "#x  spaced   out comment with many words"]);
    assert_eq!(crontab_text(&preamble, &jobs), content);
}
