use cron_manager::launchd::{
    agent_label, has_plist_extension, launchd_plist_xml, parse_launchd_agents,
    parse_start_calendar_interval, sci_dict_to_cron, with_agent_jobs, read_agent_plist, AgentFile, PlistValue,
};
use cron_manager::models::JobSource;

fn s(x: &str) -> PlistValue {
    PlistValue::String(x.to_string())
}

fn dict(entries: Vec<(&str, PlistValue)>) -> PlistValue {
    PlistValue::Dictionary(entries.into_iter().map(|(k, v)| (k.to_string(), v)).collect())
}

fn entries(v: PlistValue) -> Vec<(String, PlistValue)> {
    match v {
        PlistValue::Dictionary(e) => e,
        _ => panic!("not a dictionary"),
    }
}

#[test]
fn sci_dict_fills_missing_fields_with_star() {
    let d = entries(dict(vec![("Hour", PlistValue::Integer(2)), ("Minute", PlistValue::Integer(0))]));
    assert_eq!(sci_dict_to_cron(&d), "0 2 * * *");
    let d = entries(dict(vec![("Weekday", PlistValue::Integer(-3)), ("Day", s("5"))]));
    assert_eq!(sci_dict_to_cron(&d), "* * * * -3");
}

#[test]
fn sci_dict_skips_integers_beyond_i64() {
    let d = entries(dict(vec![("Minute", PlistValue::Integer(u64::MAX as i128)), ("Month", PlistValue::Integer(12))]));
    assert_eq!(sci_dict_to_cron(&d), "* * * 12 *");
}

#[test]
fn calendar_interval_dictionary_or_first_of_array() {
    let d = entries(dict(vec![("StartCalendarInterval", dict(vec![("Minute", PlistValue::Integer(15))]))]));
    assert_eq!(parse_start_calendar_interval(&d), "15 * * * *");
    let d = entries(dict(vec![(
        "StartCalendarInterval",
        PlistValue::Array(vec![dict(vec![("Hour", PlistValue::Integer(9))]), dict(vec![("Hour", PlistValue::Integer(21))])]),
    )]));
    assert_eq!(parse_start_calendar_interval(&d), "* 9 * * *");
}

#[test]
fn calendar_interval_defaults_to_every_minute() {
    let d = entries(dict(vec![]));
    assert_eq!(parse_start_calendar_interval(&d), "* * * * *");
    let d = entries(dict(vec![("StartCalendarInterval", PlistValue::Array(vec![s("x")]))]));
    assert_eq!(parse_start_calendar_interval(&d), "* * * * *");
    let d = entries(dict(vec![("StartCalendarInterval", PlistValue::Array(vec![]))]));
    assert_eq!(parse_start_calendar_interval(&d), "* * * * *");
    let d = entries(dict(vec![("StartCalendarInterval", PlistValue::Integer(3))]));
    assert_eq!(parse_start_calendar_interval(&d), "* * * * *");
}

#[test]
fn agent_label_needs_a_string_label() {
    assert_eq!(agent_label(&dict(vec![("Label", s("com.x.y"))])), Some("com.x.y".to_string()));
    assert_eq!(agent_label(&dict(vec![("Label", PlistValue::Integer(1))])), None);
    assert_eq!(agent_label(&dict(vec![])), None);
    assert_eq!(agent_label(&PlistValue::Array(vec![])), None);
}

#[test]
fn launchd_agents_become_jobs() {
    let agents = vec![
        AgentFile {
            path: "/L/com.user.backup-photos.plist".to_string(),
            plist: dict(vec![
                ("Label", s("com.user.backup-photos")),
                ("ProgramArguments", PlistValue::Array(vec![s("/bin/sh"), PlistValue::Integer(4), s("-c"), s("echo hi")])),
                ("Program", s("/ignored")),
                ("StartCalendarInterval", dict(vec![("Hour", PlistValue::Integer(2)), ("Minute", PlistValue::Integer(0))])),
            ]),
            loaded: true,
        },
        AgentFile { path: "/L/broken.plist".to_string(), plist: dict(vec![("Program", s("/x"))]), loaded: true },
        AgentFile {
            path: "/L/other.plist".to_string(),
            plist: dict(vec![("Label", s("org.example.nightly-sync")), ("Program", s("/usr/bin/sync"))]),
            loaded: false,
        },
        AgentFile { path: "/L/bare.plist".to_string(), plist: dict(vec![("Label", s("solo"))]), loaded: false },
    ];
    let jobs = parse_launchd_agents(10, &agents);
    assert_eq!(jobs.len(), 3);
    assert_eq!(jobs[0].id, 10);
    assert_eq!(jobs[0].name, "Backup Photos");
    assert_eq!(jobs[0].schedule, "0 2 * * *");
    assert_eq!(jobs[0].command, "/bin/sh -c echo hi");
    assert!(jobs[0].enabled);
    assert_eq!(
        jobs[0].source,
        JobSource::Launchd { label: "com.user.backup-photos".to_string(), plist_path: "/L/com.user.backup-photos.plist".to_string() }
    );
    assert_eq!(jobs[1].id, 11);
    assert_eq!(jobs[1].name, "Nightly Sync");
    assert_eq!(jobs[1].command, "/usr/bin/sync");
    assert_eq!(jobs[1].schedule, "* * * * *");
    assert!(!jobs[1].enabled);
    assert_eq!(jobs[2].id, 12);
    assert_eq!(jobs[2].name, "Solo");
    assert_eq!(jobs[2].command, "solo");
}

#[test]
fn launchd_empty_program_arguments_give_empty_command() {
    let agents = vec![AgentFile {
        path: "/p".to_string(),
        plist: dict(vec![("Label", s("a.b")), ("ProgramArguments", PlistValue::Array(vec![])), ("Program", s("/x"))]),
        loaded: false,
    }];
    let jobs = parse_launchd_agents(0, &agents);
    assert_eq!(jobs[0].command, "");
    assert_eq!(jobs[0].name, "B");
}

#[test]
fn plist_extension() {
    assert!(has_plist_extension("com.user.job.plist"));
    assert!(has_plist_extension("a.plist"));
    assert!(!has_plist_extension(".plist"));
    assert!(!has_plist_extension("plist"));
    assert!(!has_plist_extension("a.plist.bak"));
    assert!(!has_plist_extension("a.PLIST"));
}

#[test]
fn plist_xml_for_a_schedule() {
    let xml = launchd_plist_xml("com.user.my-task", "echo hi", "0 7 * * 1").unwrap();
    let expected = "<?xml version=\"1.0\" encoding=\"UTF-8\"?>
<!DOCTYPE plist PUBLIC \"-//Apple//DTD PLIST 1.0//EN\" \"http://www.apple.com/DTDs/PropertyList-1.0.dtd\">
<plist version=\"1.0\">
<dict>
    <key>Label</key>
    <string>com.user.my-task</string>
    <key>ProgramArguments</key>
    <array>
        <string>/bin/sh</string>
        <string>-c</string>
        <string>echo hi</string>
    </array>
    <key>StartCalendarInterval</key>
    <dict>
        <key>Minute</key><integer>0</integer>
        <key>Hour</key><integer>7</integer>
        <key>Weekday</key><integer>1</integer>
    </dict>
</dict>
</plist>";
    assert_eq!(xml, expected);
}

#[test]
fn plist_xml_every_minute_has_empty_calendar() {
    let xml = launchd_plist_xml("l", "c", "* * * * *").unwrap();
    assert!(xml.contains("<key>StartCalendarInterval</key>\n    <dict>\n    </dict>\n</dict>"));
}

#[test]
fn plist_xml_rejects_a_bad_schedule() {
    assert_eq!(launchd_plist_xml("l", "c", "0 7 * *"), Err("Invalid schedule: 0 7 * *".to_string()));
    assert_eq!(launchd_plist_xml("l", "c", ""), Err("Invalid schedule: ".to_string()));
}

#[test]
fn agent_jobs_follow_crontab_jobs() {
    let (cron, _) = cron_manager::cron::parse_crontab("0 7 * * * a.sh\n# 1 2 3 4 5 b.sh\n");
    let agents = vec![
        AgentFile { path: "/x.plist".to_string(), plist: PlistValue::Other, loaded: false },
        AgentFile {
            path: "/a/com.me.job-one.plist".to_string(),
            plist: dict(vec![("Label", s("com.me.job-one"))]),
            loaded: true,
        },
    ];
    let all = with_agent_jobs(cron, &agents);
    assert_eq!(all.len(), 3);
    let ids: Vec<usize> = all.iter().map(|j| j.id).collect();
    assert_eq!(ids, vec![0, 1, 2]);
    assert_eq!(all[2].name, "Job One");
    assert_eq!(all[2].command, "com.me.job-one");
    assert!(all[2].enabled);
}

#[test]
fn written_agent_reads_back_as_the_same_job() {
    for (schedule, expected) in [("30  2 * * 0", "30 2 * * 0"), ("* * * * *", "* * * * *"), ("5 4 3 2 1", "5 4 3 2 1")] {
        let xml = launchd_plist_xml("com.user.nightly-sync", "rsync -a ~/a /b", schedule).unwrap();
        let (value, label) = read_agent_plist(xml.as_bytes()).unwrap();
        assert_eq!(label.as_deref(), Some("com.user.nightly-sync"));
        let agent = AgentFile { path: "/L/com.user.nightly-sync.plist".to_string(), plist: value, loaded: true };
        let jobs = parse_launchd_agents(7, &vec![agent]);
        assert_eq!(jobs.len(), 1);
        assert_eq!(jobs[0].id, 7);
        assert_eq!(jobs[0].schedule, expected);
        assert_eq!(jobs[0].command, "/bin/sh -c rsync -a ~/a /b");
        assert_eq!(jobs[0].name, "Nightly Sync");
        assert_eq!(
            jobs[0].source,
            JobSource::Launchd {
                label: "com.user.nightly-sync".to_string(),
                plist_path: "/L/com.user.nightly-sync.plist".to_string()
            }
        );
    }
}

#[test]
fn agent_plist_from_bytes() {
    assert!(read_agent_plist(b"not a plist").is_none());
    let xml = "<?xml version=\"1.0\" encoding=\"UTF-8\"?>\n<plist version=\"1.0\"><dict><key>Label</key><string>com.a.b</string><key>StartCalendarInterval</key><array><dict><key>Hour</key><integer>5</integer></dict></array><key>N</key><integer>18446744073709551615</integer></dict></plist>";
    let (value, label) = read_agent_plist(xml.as_bytes()).unwrap();
    assert_eq!(label.as_deref(), Some("com.a.b"));
    let d = entries(value);
    assert_eq!(parse_start_calendar_interval(&d), "* 5 * * *");
    assert!(matches!(d[2].1, PlistValue::Integer(18446744073709551615)));
    let (value, label) = read_agent_plist(b"<plist version=\"1.0\"><array><string>x</string></array></plist>").unwrap();
    assert!(label.is_none());
    assert!(matches!(value, PlistValue::Array(_)));
}
