use cron_manager::models::{timestamp_from_reading, JobSource, RunStatus, Timestamp};
use cron_manager::util::{
    extract_name, human_schedule, jobs_or_samples, sample_jobs, sample_jobs_at, time_ago,
    time_ago_between, title_case, title_from_mapped,
};

#[test]
fn title_case_splits_on_underscore_and_dash() {
    assert_eq!(title_case("backup_photos"), "Backup Photos");
    assert_eq!(title_case("log-cleanup"), "Log Cleanup");
    assert_eq!(title_case("hELLO_wORLD"), "Hello World");
}

#[test]
fn title_case_keeps_empty_pieces() {
    assert_eq!(title_case(""), "");
    assert_eq!(title_case("a__b"), "A  B");
    assert_eq!(title_case("_x"), " X");
}

#[test]
fn title_case_uses_unicode_case_mapping() {
    assert_eq!(title_case("ßtraße"), "SStraße");
    assert_eq!(title_case("élan_ÉTÉ"), "Élan Été");
}

#[test]
fn extract_name_takes_the_script_word() {
    assert_eq!(
        extract_name("cd /Users/m4server/projects/briefing && python3 briefing.py --config config/robotics.json"),
        "Briefing"
    );
    assert_eq!(extract_name("/usr/local/bin/nightly_backup.sh --all"), "Nightly Backup");
    assert_eq!(extract_name("ruby /opt/jobs/send-report.rb"), "Send Report");
}

#[test]
fn extract_name_falls_back_to_first_word() {
    assert_eq!(extract_name("pg_dump mydb | gzip > /backups/mydb_$(date +%Y%m%d).sql.gz"), "pg_dump");
    assert_eq!(extract_name("/usr/local/bin/rsync -a ~/Pictures /Volumes/Backup/Pictures"), "rsync");
    assert_eq!(extract_name("find /tmp -type f -mtime +7 -delete"), "find");
}

#[test]
fn extract_name_of_nothing_is_unknown() {
    assert_eq!(extract_name(""), "Unknown");
    assert_eq!(extract_name("   \t "), "Unknown");
}

#[test]
fn extract_name_removes_every_script_extension() {
    assert_eq!(extract_name("run a.py.sh"), "A");
    assert_eq!(extract_name("/x/dir/"), "");
}

#[test]
fn human_schedule_daily() {
    assert_eq!(human_schedule("0 7 * * *"), "Daily at 07:00");
    assert_eq!(human_schedule("30 2 * * *"), "Daily at 02:30");
    assert_eq!(human_schedule("  5\t14 * *   * "), "Daily at 14:05");
}

#[test]
fn human_schedule_weekdays() {
    assert_eq!(human_schedule("0 0 * * 0"), "Sun at 00:00");
    assert_eq!(human_schedule("30 8 * * 1,3,5"), "Mon, Wed, Fri at 08:30");
    assert_eq!(human_schedule("0 9 * * +6,7,x,02"), "Sat, Tue at 09:00");
    assert_eq!(human_schedule("30 8 * 1 1-5"), " at 08:30");
}

#[test]
fn human_schedule_other_expressions_unchanged() {
    assert_eq!(human_schedule("0 0 1 * *"), "0 0 1 * *");
    assert_eq!(human_schedule("@daily"), "@daily");
    assert_eq!(human_schedule("0 0 * * * *"), "0 0 * * * *");
}

#[test]
fn human_schedule_long_fields_not_padded() {
    assert_eq!(human_schedule("*/15 */2 * * *"), "Daily at */2:*/15");
}

fn ts(secs: i64, nanos: u32) -> Timestamp {
    Timestamp { secs, nanos }
}

#[test]
fn time_ago_between_units() {
    let now = ts(1_000_000, 0);
    assert_eq!(time_ago_between(&now, &ts(1_000_000 - 59, 0)), "just now");
    assert_eq!(time_ago_between(&now, &ts(1_000_000 - 60, 0)), "1m ago");
    assert_eq!(time_ago_between(&now, &ts(1_000_000 - 5 * 60 - 30, 0)), "5m ago");
    assert_eq!(time_ago_between(&now, &ts(1_000_000 - 3 * 3600, 0)), "3h ago");
    assert_eq!(time_ago_between(&now, &ts(1_000_000 - 50 * 3600, 0)), "2d ago");
}

#[test]
fn time_ago_between_future_is_just_now() {
    let now = ts(1_000_000, 0);
    assert_eq!(time_ago_between(&now, &ts(1_000_000 + 7200, 0)), "just now");
}

#[test]
fn time_ago_between_counts_nanoseconds() {
    assert_eq!(time_ago_between(&ts(120, 0), &ts(60, 1)), "just now");
    assert_eq!(time_ago_between(&ts(120, 1), &ts(60, 1)), "1m ago");
}

#[test]
fn time_ago_of_a_recent_time() {
    let jobs = sample_jobs();
    let t = jobs[0].last_run.unwrap();
    assert_eq!(time_ago(&t), "3h ago");
}

#[test]
fn sample_jobs_fixed_content() {
    let now = ts(2_000_000_000, 5);
    let jobs = sample_jobs_at(now);
    assert_eq!(jobs.len(), 5);
    let names: Vec<&str> = jobs.iter().map(|j| j.name.as_str()).collect();
    assert_eq!(names, vec!["Robotics Briefing", "Backup Database", "Clear Temp Files", "Backup Photos", "Log Cleanup"]);
    assert_eq!(jobs[0].logs.len(), 4);
    assert_eq!(jobs[0].logs[2].status, RunStatus::Error);
    assert_eq!(jobs[0].logs[1].timestamp, ts(2_000_000_000 - 27 * 3600, 5));
    assert_eq!(jobs[2].last_run, Some(ts(2_000_000_000 - 6 * 86400, 5)));
    assert!(!jobs[2].enabled);
    assert_eq!(
        jobs[3].source,
        JobSource::Launchd {
            label: "com.user.backup-photos".to_string(),
            plist_path: "/Users/user/Library/LaunchAgents/com.user.backup-photos.plist".to_string()
        }
    );
    assert!(jobs[4].last_run.is_none());
    assert!(jobs[4].logs.is_empty());
}

#[test]
fn sample_jobs_use_the_clock() {
    let jobs = sample_jobs();
    let t = jobs[1].last_run.unwrap();
    assert!(t.secs > 1_600_000_000);
    assert!(t.nanos < 1_000_000_000);
}

#[test]
fn jobs_or_samples_keeps_real_jobs() {
    let real = sample_jobs_at(ts(100_000_000, 0));
    let kept = jobs_or_samples(real);
    assert_eq!(kept.len(), 5);
    assert_eq!(kept[0].logs[0].timestamp.secs, 100_000_000 - 3 * 3600);
    let filled = jobs_or_samples(Vec::new());
    assert_eq!(filled.len(), 5);
}

#[test]
fn clock_readings_become_timestamps() {
    let t = timestamp_from_reading(Ok((1_700_000_000, 5)));
    assert_eq!((t.secs, t.nanos), (1_700_000_000, 5));
    let t = timestamp_from_reading(Err((10, 0)));
    assert_eq!((t.secs, t.nanos), (-10, 0));
    let t = timestamp_from_reading(Err((10, 250_000_000)));
    assert_eq!((t.secs, t.nanos), (-11, 750_000_000));
    let t = timestamp_from_reading(Ok((u64::MAX, 7)));
    assert_eq!((t.secs, t.nanos), (i64::MAX, 7));
    let t = timestamp_from_reading(Err((1u64 << 63, 0)));
    assert_eq!((t.secs, t.nanos), (i64::MIN, 0));
    let t = timestamp_from_reading(Err((1u64 << 63, 1)));
    assert_eq!((t.secs, t.nanos), (i64::MIN, 0));
}

#[test]
fn sample_runs_stop_at_the_earliest_second() {
    let jobs = sample_jobs_at(ts(i64::MIN + 100, 3));
    assert_eq!(jobs[0].logs[0].timestamp.secs, i64::MIN);
    assert_eq!(jobs[0].logs[0].timestamp.nanos, 3);
    let jobs = sample_jobs_at(ts(-5, 0));
    assert_eq!(jobs[2].last_run.unwrap().secs, -5 - 6 * 86400);
}

#[test]
fn title_from_mapped_pieces() {
    let pieces = vec![
        Some(("B".to_string(), "ackup".to_string())),
        None,
        Some(("\u{1c5}".to_string(), "b".to_string())),
    ];
    assert_eq!(title_from_mapped(&pieces), "Backup  \u{1c5}b");
    assert_eq!(title_from_mapped(&Vec::new()), "");
}

#[test]
fn ascii_case_mapping() {
    assert_eq!(title_case("nIGHTLY_sync-JOB"), "Nightly Sync Job");
    assert_eq!(extract_name("/path/to/script.sh"), "Script");
    assert_eq!(extract_name("python3 /opt/Daily_REPORT.py --x"), "Daily Report");
}
