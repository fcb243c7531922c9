use cron_manager::app::{run_outcome, status_is_error, CommandOutput, Effect, SchedulerApp};
use cron_manager::cron::parse_crontab;
use cron_manager::models::{JobSource, RunStatus};
use cron_manager::theme::Theme;
use cron_manager::util::sample_jobs_at;
use cron_manager::models::Timestamp;

fn app_with(content: &str, mock: bool) -> SchedulerApp {
    let (jobs, pre) = parse_crontab(content);
    SchedulerApp::new(jobs, pre, mock)
}

#[test]
fn new_app_starts_closed_and_empty() {
    let app = app_with("0 7 * * * a.sh\n", false);
    assert_eq!(app.jobs.len(), 1);
    assert!(!app.show_add_dialog);
    assert!(app.new_name.is_empty() && app.new_schedule.is_empty() && app.new_command.is_empty() && app.new_label.is_empty());
    assert!(!app.new_source_is_launchd);
    assert!(app.status_msg.is_none());
    assert!(app.expanded_jobs.is_empty());
}

#[test]
fn clear_form_empties_the_form() {
    let mut app = app_with("", false);
    app.new_name = "n".into();
    app.new_schedule = "s".into();
    app.new_command = "c".into();
    app.new_label = "l".into();
    app.new_source_is_launchd = true;
    app.show_add_dialog = true;
    app.clear_form();
    assert!(app.new_name.is_empty() && app.new_schedule.is_empty() && app.new_command.is_empty() && app.new_label.is_empty());
    assert!(!app.new_source_is_launchd);
    assert!(app.show_add_dialog);
}

#[test]
fn save_writes_only_crontab_jobs() {
    let mut app = app_with("X=1\n0 7 * * * a.sh\n", false);
    let jobs = sample_jobs_at(Timestamp { secs: 1_000_000, nanos: 0 });
    app.jobs.extend(jobs);
    let text = app.crontab_to_save().unwrap();
    assert_eq!(
        text,
        "X=1\n0 7 * * * a.sh\n0 7 * * * cd /Users/m4server/projects/briefing && python3 briefing.py --config config/robotics.json\n30 2 * * * pg_dump mydb | gzip > /backups/mydb_$(date +%Y%m%d).sql.gz\n# 0 0 * * 0 find /tmp -type f -mtime +7 -delete\n"
    );
}

#[test]
fn mock_mode_saves_nothing() {
    let app = app_with("0 7 * * * a.sh\n", true);
    assert!(app.crontab_to_save().is_none());
}

#[test]
fn finish_save_reports() {
    let mut app = app_with("", false);
    app.finish_save(Ok(()));
    assert_eq!(app.status_msg.as_deref(), Some("Crontab saved."));
    app.finish_save(Err("crontab exited with non-zero status".into()));
    assert_eq!(app.status_msg.as_deref(), Some("Error: crontab exited with non-zero status"));
}

#[test]
fn toggle_cron_job_twice_restores() {
    let mut app = app_with("0 7 * * * a.sh\n# 1 2 3 4 5 b.sh\n", false);
    app.toggle_cron_job(1);
    assert!(app.jobs[1].enabled);
    assert!(app.jobs[0].enabled);
    app.toggle_cron_job(1);
    assert!(!app.jobs[1].enabled);
    app.toggle_cron_job(99);
    assert!(app.jobs[0].enabled && !app.jobs[1].enabled);
}

#[test]
fn launchd_toggle_requests_the_opposite_state() {
    let mut app = SchedulerApp::new(sample_jobs_at(Timestamp { secs: 1_000_000, nanos: 0 }), Vec::new(), false);
    assert_eq!(
        app.launchd_toggle_request(3),
        Some(("/Users/user/Library/LaunchAgents/com.user.backup-photos.plist".to_string(), false))
    );
    assert_eq!(
        app.launchd_toggle_request(4),
        Some(("/Users/user/Library/LaunchAgents/com.user.log-cleanup.plist".to_string(), true))
    );
    assert_eq!(app.launchd_toggle_request(0), None);
    assert_eq!(app.launchd_toggle_request(42), None);
    app.finish_launchd_toggle(4, true, Ok(()));
    assert!(app.jobs[4].enabled);
    assert_eq!(app.status_msg.as_deref(), Some("Job loaded."));
    app.finish_launchd_toggle(3, false, Ok(()));
    assert!(!app.jobs[3].enabled);
    assert_eq!(app.status_msg.as_deref(), Some("Job unloaded."));
    app.finish_launchd_toggle(3, true, Err("denied".into()));
    assert!(!app.jobs[3].enabled);
    assert_eq!(app.status_msg.as_deref(), Some("Error: denied"));
}

#[test]
fn remove_job_removes_every_match() {
    let mut app = app_with("1 2 3 4 5 a\n1 2 3 4 5 b\n1 2 3 4 5 c\n", false);
    app.jobs[2].id = 0;
    app.remove_job(0);
    assert_eq!(app.jobs.len(), 1);
    assert_eq!(app.jobs[0].command, "b");
}

#[test]
fn launchd_delete_outcome() {
    let mut app = SchedulerApp::new(sample_jobs_at(Timestamp { secs: 1_000_000, nanos: 0 }), Vec::new(), false);
    app.finish_launchd_delete(3, Err("Cannot remove plist: gone".into()));
    assert_eq!(app.jobs.len(), 5);
    assert_eq!(app.status_msg.as_deref(), Some("Error: Cannot remove plist: gone"));
    app.finish_launchd_delete(3, Ok(()));
    assert_eq!(app.jobs.len(), 4);
    assert!(app.jobs.iter().all(|j| j.id != 3));
    assert_eq!(app.status_msg.as_deref(), Some("Launchd job deleted."));
}

#[test]
fn stats_count_active_passing_failing() {
    let mut app = SchedulerApp::new(sample_jobs_at(Timestamp { secs: 1_000_000, nanos: 0 }), Vec::new(), true);
    assert_eq!(app.job_stats(), (3, 4, 0));
    app.jobs[1].last_status = Some(RunStatus::Error);
    app.jobs[4].last_status = Some(RunStatus::Running);
    assert_eq!(app.job_stats(), (3, 3, 1));
}

#[test]
fn add_dialog_rules() {
    let mut app = app_with("0 7 * * * a.sh\n", false);
    assert!(!app.can_add());
    app.new_name = "Job".into();
    app.new_schedule = "0 1 * * *".into();
    app.new_command = "echo".into();
    assert!(app.can_add());
    app.new_source_is_launchd = true;
    assert!(!app.can_add());
    app.new_label = "com.x".into();
    assert!(app.can_add());
}

#[test]
fn add_cron_job_takes_next_id() {
    let mut app = app_with("0 7 * * * a.sh\n1 1 1 1 1 b\n", false);
    app.jobs[0].id = 41;
    assert_eq!(app.max_job_id(), 41);
    app.show_add_dialog = true;
    app.new_name = "Job".into();
    app.new_schedule = "0 1 * * *".into();
    app.new_command = "echo".into();
    app.add_cron_job();
    assert_eq!(app.jobs.len(), 3);
    let j = &app.jobs[2];
    assert_eq!(j.id, 42);
    assert_eq!(j.name, "Job");
    assert_eq!(j.schedule, "0 1 * * *");
    assert_eq!(j.command, "echo");
    assert!(j.enabled);
    assert_eq!(j.source, JobSource::Cron);
    assert!(!app.show_add_dialog);
    assert!(app.new_name.is_empty());
}

#[test]
fn add_job_to_empty_list_gets_id_one() {
    let mut app = app_with("", false);
    assert_eq!(app.max_job_id(), 0);
    app.new_name = "J".into();
    app.add_cron_job();
    assert_eq!(app.jobs[0].id, 1);
}

#[test]
fn add_launchd_job_outcomes() {
    let mut app = app_with("", false);
    app.show_add_dialog = true;
    app.new_source_is_launchd = true;
    app.new_label = "com.user.t".into();
    app.new_name = "T".into();
    app.add_launchd_job(Err("Cannot determine HOME".into()));
    assert!(app.jobs.is_empty());
    assert!(app.show_add_dialog);
    assert_eq!(app.status_msg.as_deref(), Some("Error: Cannot determine HOME"));
    app.add_launchd_job(Ok("/L/com.user.t.plist".into()));
    assert_eq!(app.jobs.len(), 1);
    assert_eq!(app.jobs[0].source, JobSource::Launchd { label: "com.user.t".into(), plist_path: "/L/com.user.t.plist".into() });
    assert!(!app.show_add_dialog);
    assert!(app.new_label.is_empty() && !app.new_source_is_launchd);
    assert_eq!(app.status_msg.as_deref(), Some("Launchd job created."));
}

#[test]
fn close_dialog_clears_form() {
    let mut app = app_with("", false);
    app.show_add_dialog = true;
    app.new_command = "x".into();
    app.close_add_dialog();
    assert!(!app.show_add_dialog);
    assert!(app.new_command.is_empty());
}

#[test]
fn reload_falls_back_to_samples() {
    let mut app = app_with("0 7 * * * a.sh\n", false);
    app.status_msg = Some("x".into());
    app.reload(Vec::new(), vec!["P".to_string()]);
    assert_eq!(app.jobs.len(), 5);
    assert_eq!(app.crontab_preamble, vec!["P".to_string()]);
    assert!(app.status_msg.is_none());
    let (jobs, _) = parse_crontab("1 2 3 4 5 z\n");
    app.reload(jobs, Vec::new());
    assert_eq!(app.jobs.len(), 1);
    app.status_msg = Some("y".into());
    app.reload_mock();
    assert_eq!(app.jobs.len(), 5);
    assert!(app.status_msg.is_none());
}

#[test]
fn run_outcome_success_and_failure_texts() {
    let ok = CommandOutput { success: true, stdout: "  done\n".into(), stderr: "warn".into() };
    assert_eq!(run_outcome(2, 2500, &Ok(ok)), (RunStatus::Success, "2s".to_string(), "done".to_string()));
    let quiet = CommandOutput { success: true, stdout: " \n".into(), stderr: "".into() };
    assert_eq!(run_outcome(0, 37, &Ok(quiet)), (RunStatus::Success, "37ms".to_string(), "Completed successfully.".to_string()));
    let failed = CommandOutput { success: false, stdout: "".into(), stderr: " boom \n".into() };
    assert_eq!(run_outcome(0, 0, &Ok(failed)), (RunStatus::Error, "0ms".to_string(), "boom".to_string()));
    let silent = CommandOutput { success: false, stdout: "".into(), stderr: "".into() };
    assert_eq!(run_outcome(1, 1000, &Ok(silent)), (RunStatus::Error, "1s".to_string(), "Command failed.".to_string()));
    assert_eq!(
        run_outcome(0, 1, &Err("No such file".into())),
        (RunStatus::Error, "1ms".to_string(), "Failed to execute: No such file".to_string())
    );
}

#[test]
fn record_run_puts_the_new_log_first() {
    let mut app = SchedulerApp::new(sample_jobs_at(Timestamp { secs: 1_000_000, nanos: 0 }), Vec::new(), true);
    app.record_run(1, RunStatus::Error, "3s".into(), "oops".into());
    let j = &app.jobs[1];
    assert_eq!(j.logs.len(), 3);
    assert_eq!(j.logs[0].status, RunStatus::Error);
    assert_eq!(j.logs[0].duration, "3s");
    assert_eq!(j.logs[0].output, "oops");
    assert!(j.logs[0].timestamp.secs > 1_600_000_000);
    assert_eq!(j.logs[1].duration, "45s");
    assert_eq!(j.last_status, Some(RunStatus::Error));
    assert_eq!(j.last_duration.as_deref(), Some("3s"));
    assert!(j.last_run.unwrap().secs > 1_600_000_000);
    app.record_run(77, RunStatus::Success, "1s".into(), "x".into());
    assert_eq!(app.jobs[0].logs.len(), 4);
}

#[test]
fn error_status_lines() {
    assert!(status_is_error("Error: x"));
    assert!(status_is_error("Error"));
    assert!(!status_is_error("Crontab saved."));
    assert!(!status_is_error("error: lower"));
    assert!(!status_is_error("Err"));
}

#[test]
fn theme_colours() {
    assert_eq!(Theme::rgb(Theme::BG), (15, 16, 23));
    assert_eq!(Theme::rgb(Theme::ACCENT), (99, 102, 241));
    assert_eq!(Theme::rgb(Theme::LAUNCHD), (168, 85, 247));
    assert_eq!(Theme::rgb(Theme::TEXT), (226, 232, 240));
}

#[test]
fn actions_ask_for_the_right_effect() {
    let photos = "/Users/user/Library/LaunchAgents/com.user.backup-photos.plist";
    let mut app = SchedulerApp::new(sample_jobs_at(Timestamp { secs: 1_000_000, nanos: 0 }), Vec::new(), false);
    match app.toggle_job(0) {
        Effect::SaveCrontab => {}
        e => panic!("{:?}", e),
    }
    assert!(!app.jobs[0].enabled);
    match app.toggle_job(3) {
        Effect::Launchctl { plist_path, load } => {
            assert_eq!(plist_path, photos);
            assert!(!load);
        }
        e => panic!("{:?}", e),
    }
    assert!(app.jobs[3].enabled);
    assert!(matches!(app.toggle_job(42), Effect::Nothing));
    match app.delete_job(3) {
        Effect::DeleteAgent { plist_path } => assert_eq!(plist_path, photos),
        e => panic!("{:?}", e),
    }
    assert_eq!(app.jobs.len(), 5);
    assert!(matches!(app.delete_job(0), Effect::SaveCrontab));
    assert_eq!(app.jobs.len(), 4);
    assert!(matches!(app.delete_job(0), Effect::Nothing));
    assert!(matches!(app.submit_form(), Effect::Nothing));
    app.new_name = "n".to_string();
    app.new_schedule = "1 2 3 4 5".to_string();
    app.new_command = "c".to_string();
    app.new_source_is_launchd = true;
    assert!(matches!(app.submit_form(), Effect::Nothing));
    app.new_label = "com.x".to_string();
    match app.submit_form() {
        Effect::WriteAgent { label, command, schedule } => {
            assert_eq!((label.as_str(), command.as_str(), schedule.as_str()), ("com.x", "c", "1 2 3 4 5"));
        }
        e => panic!("{:?}", e),
    }
    assert_eq!(app.jobs.len(), 4);
    app.new_source_is_launchd = false;
    assert!(matches!(app.submit_form(), Effect::SaveCrontab));
    assert_eq!(app.jobs.len(), 5);
    assert_eq!(app.jobs[4].id, 5);
    assert!(app.new_name.is_empty());
}

#[test]
fn record_run_at_uses_the_given_times() {
    let mut app = SchedulerApp::new(sample_jobs_at(Timestamp { secs: 1_000_000, nanos: 0 }), Vec::new(), true);
    let logged = Timestamp { secs: 2_000_000, nanos: 5 };
    let last = Timestamp { secs: 2_000_001, nanos: 0 };
    app.record_run_at(2, RunStatus::Success, "12ms".into(), "done".into(), logged, last);
    let j = &app.jobs[2];
    assert_eq!(j.logs.len(), 2);
    assert_eq!(j.logs[0].timestamp, logged);
    assert_eq!(j.last_run, Some(last));
    assert_eq!(j.logs[1].timestamp, Timestamp { secs: 1_000_000 - 6 * 86400, nanos: 0 });
    app.record_run_at(99, RunStatus::Error, "1s".into(), "x".into(), logged, last);
    assert_eq!(app.jobs[4].logs.len(), 0);
}

#[test]
fn incomplete_form_adds_nothing_even_at_the_largest_id() {
    let mut app = SchedulerApp::new(sample_jobs_at(Timestamp { secs: 1_000_000, nanos: 0 }), Vec::new(), false);
    app.jobs[0].id = usize::MAX;
    app.new_name = "n".to_string();
    assert!(matches!(app.submit_form(), Effect::Nothing));
    assert_eq!(app.jobs.len(), 5);
    app.add_launchd_job(Err("no".to_string()));
    assert_eq!(app.status_msg.as_deref(), Some("Error: no"));
}
