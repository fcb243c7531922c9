# Cron Manager

A desktop manager for a user's crontab and launchd agents: it lists the jobs,
adds, enables, disables, deletes and runs them, and keeps a run history.

The library under `src/` holds the logic, verified with Verus:

- `text` — character-level string operations (splitting, trimming, joining,
  decimal formatting) with their specifications and lemmas.
- `models` — jobs, run logs, timestamps.
- `cron` — reading crontab text into jobs and a preamble of other lines, and
  writing them back; the round trip is proved.
- `launchd` — reading a job out of an agent's property list, and the property list
  of a new agent.
- `util` — job names from commands, schedules and times in words, the
  demonstration jobs.
- `app` — the scheduler's state and what each user action does to it.
- `theme` — the colours of the interface.

`app/` is the program around it: the window (eframe/egui), the `crontab` and
`launchctl` commands, the files under `~/Library/LaunchAgents`, and running a
job's command. Run it with `--mock` to use demonstration jobs and never write
the crontab.
