//! The scheduler's state and the decisions it takes on each user action. Work
//! outside the process (writing the crontab, `launchctl`, running a command) is
//! done by the caller, which hands the outcome back to the matching method here.

use vstd::prelude::*;
use std::collections::HashSet;
use crate::cron::{cron_jobs, crontab_text_filtered, crontab_text_spec, job_entries};
use crate::models::{ids_in_order, now_timestamp, CronJob, JobSource, RunLog, RunStatus, Timestamp};
use crate::util::{is_sample_jobs, jobs_or_samples, sample_jobs};
use crate::text::{
    append_vec, chars_of, nat_digits, nat_digits_of, string_of, string_views, sub_chars, trim,
    trim_chars,
};

verus! {

broadcast use vstd::seq_lib::group_seq_properties;

/// The scheduler: the jobs, the crontab lines that are not jobs, the new-job form,
/// and the status line.
pub struct SchedulerApp {
    pub jobs: Vec<CronJob>,
    pub crontab_preamble: Vec<String>,
    pub use_mock: bool,
    pub show_add_dialog: bool,
    pub new_name: String,
    pub new_schedule: String,
    pub new_command: String,
    pub new_label: String,
    pub new_source_is_launchd: bool,
    pub status_msg: Option<String>,
    pub expanded_jobs: HashSet<usize>,
}

/// The index of the first job with id `id`.
pub open spec fn first_job(js: Seq<CronJob>, id: usize) -> Option<int>
    decreases js.len(),
{
    if js.len() == 0 {
        None
    } else if js[0].id == id {
        Some(0)
    } else {
        match first_job(js.drop_first(), id) {
            Some(k) => Some(k + 1),
            None => None,
        }
    }
}

pub proof fn lemma_first_job(js: Seq<CronJob>, id: usize)
    ensures
        match first_job(js, id) {
            Some(k) => 0 <= k < js.len() && js[k].id == id && forall|l: int| 0 <= l < k ==> (#[trigger] js[l]).id != id,
            None => forall|l: int| 0 <= l < js.len() ==> (#[trigger] js[l]).id != id,
        },
    decreases js.len(),
{
    if js.len() > 0 {
        lemma_first_job(js.drop_first(), id);
        match first_job(js.drop_first(), id) {
            Some(k) => {
                assert forall|l: int| 0 <= l < k + 1 && js[0].id != id implies (#[trigger] js[l]).id != id by {
                    if l > 0 {
                        assert(js[l] == js.drop_first()[l - 1]);
                    }
                }
            },
            None => {
                assert forall|l: int| 0 <= l < js.len() && js[0].id != id implies (#[trigger] js[l]).id != id by {
                    if l > 0 {
                        assert(js[l] == js.drop_first()[l - 1]);
                    }
                }
            },
        }
    }
}

pub proof fn lemma_first_job_at(js: Seq<CronJob>, id: usize, k: int)
    requires
        0 <= k < js.len(),
        js[k].id == id,
        forall|l: int| 0 <= l < k ==> (#[trigger] js[l]).id != id,
    ensures
        first_job(js, id) == Some(k),
    decreases k,
{
    if k > 0 {
        let t = js.drop_first();
        assert forall|l: int| 0 <= l < k - 1 implies (#[trigger] t[l]).id != id by {
            assert(t[l] == js[l + 1]);
        }
        lemma_first_job_at(t, id, k - 1);
    }
}

/// The jobs with the first job of id `id` set to `enabled`.
pub open spec fn with_enabled(js: Seq<CronJob>, id: usize, enabled: bool) -> Seq<CronJob> {
    match first_job(js, id) {
        Some(k) => js.update(k, CronJob { enabled: enabled, ..js[k] }),
        None => js,
    }
}

/// The jobs with the state of the first job of id `id` flipped.
pub open spec fn toggled(js: Seq<CronJob>, id: usize) -> Seq<CronJob> {
    match first_job(js, id) {
        Some(k) => with_enabled(js, id, !js[k].enabled),
        None => js,
    }
}

/// Toggling the same job twice gives back the jobs as they were.
pub proof fn lemma_toggle_twice(js: Seq<CronJob>, id: usize)
    ensures
        toggled(toggled(js, id), id) == js,
{
    lemma_first_job(js, id);
    match first_job(js, id) {
        Some(k) => {
            let once = toggled(js, id);
            assert forall|l: int| 0 <= l < k implies (#[trigger] once[l]).id != id by {
                assert(once[l] == js[l]);
            }
            lemma_first_job_at(once, id, k);
            assert(toggled(once, id) =~= js);
        },
        None => {},
    }
}

/// Every job id is at most the largest.
pub proof fn lemma_max_id(js: Seq<CronJob>)
    ensures
        forall|l: int| 0 <= l < js.len() ==> (#[trigger] js[l]).id <= max_id(js),
    decreases js.len(),
{
    if js.len() > 0 {
        lemma_max_id(js.drop_last());
        assert forall|l: int| 0 <= l < js.len() implies (#[trigger] js[l]).id <= max_id(js) by {
            if l < js.len() - 1 {
                assert(js[l] == js.drop_last()[l]);
            }
        }
    }
}

/// A job added from the form has an id that no earlier job has.
pub proof fn lemma_new_id_fresh(js: Seq<CronJob>, j: CronJob)
    requires
        j.id == max_id(js) + 1,
    ensures
        forall|l: int| 0 <= l < js.len() ==> (#[trigger] js[l]).id != j.id,
{
    lemma_max_id(js);
}

/// The largest job id, 0 when there are no jobs.
pub open spec fn max_id(js: Seq<CronJob>) -> nat
    decreases js.len(),
{
    if js.len() == 0 {
        0
    } else {
        let m = max_id(js.drop_last());
        if js.last().id > m {
            js.last().id as nat
        } else {
            m
        }
    }
}

/// What a finished command gave back.
#[derive(Debug)]
pub struct CommandOutput {
    pub success: bool,
    pub stdout: String,
    pub stderr: String,
}

/// What an action asks of the world outside the scheduler; the caller does it and
/// hands the outcome back to the method named.
#[derive(Debug)]
pub enum Effect {
    /// Nothing.
    Nothing,
    /// Write the crontab (`crontab_to_save`, then `finish_save`).
    SaveCrontab,
    /// Load (`load`) or unload the agent at `plist_path`, then
    /// `finish_launchd_toggle`.
    Launchctl { plist_path: String, load: bool },
    /// Unload and remove the agent at `plist_path`, then `finish_launchd_delete`.
    DeleteAgent { plist_path: String },
    /// Write and load an agent for the form, then `add_launchd_job`.
    WriteAgent { label: String, command: String, schedule: String },
}

/// How long a run took, in words: whole seconds, or milliseconds under a second.
pub open spec fn duration_text(secs: u64, millis: u128) -> Seq<char> {
    if secs > 0 {
        nat_digits(secs as nat) + "s"@
    } else {
        nat_digits(millis as nat) + "ms"@
    }
}

/// The text a run shows: its standard output, or its standard error when the
/// output is blank, trimmed.
pub open spec fn output_text(out: CommandOutput) -> Seq<char> {
    trim(
        if trim(out.stdout@).len() == 0 {
            out.stderr@
        } else {
            out.stdout@
        },
    )
}

/// The status and the text of a run, from what the command gave back or from the
/// reason it could not start.
pub open spec fn run_result(output: Result<CommandOutput, String>) -> (RunStatus, Seq<char>) {
    match output {
        Ok(o) => {
            let t = output_text(o);
            if o.success {
                (RunStatus::Success, if t.len() == 0 { "Completed successfully."@ } else { t })
            } else {
                (RunStatus::Error, if t.len() == 0 { "Command failed."@ } else { t })
            }
        },
        Err(e) => (RunStatus::Error, "Failed to execute: "@ + e@),
    }
}

/// What a run records of a finished command: success exactly when the command
/// succeeded; as text its trimmed standard output, or, when that is blank, its
/// trimmed standard error, whatever the exit status; a fixed message only when both
/// are blank. A command that could not start is an error with the reason.
pub proof fn lemma_run_result_text(output: Result<CommandOutput, String>)
    ensures
        match output {
            Ok(o) => {
                &&& (run_result(output).0 == RunStatus::Success) == o.success
                &&& (run_result(output).0 == RunStatus::Error) == !o.success
                &&& trim(o.stdout@).len() > 0 ==> run_result(output).1 == trim(o.stdout@)
                &&& trim(o.stdout@).len() == 0 && trim(o.stderr@).len() > 0 ==> run_result(output).1 == trim(
                    o.stderr@,
                )
                &&& trim(o.stdout@).len() == 0 && trim(o.stderr@).len() == 0 && o.success
                    ==> run_result(output).1 == "Completed successfully."@
                &&& trim(o.stdout@).len() == 0 && trim(o.stderr@).len() == 0 && !o.success
                    ==> run_result(output).1 == "Command failed."@
            },
            Err(e) => {
                &&& run_result(output).0 == RunStatus::Error
                &&& run_result(output).1 == "Failed to execute: "@ + e@
            },
        },
{
}

pub open spec fn enabled_pred() -> spec_fn(CronJob) -> bool {
    |j: CronJob| j.enabled
}

pub open spec fn passing_pred() -> spec_fn(CronJob) -> bool {
    |j: CronJob| j.last_status == Some(RunStatus::Success)
}

pub open spec fn failing_pred() -> spec_fn(CronJob) -> bool {
    |j: CronJob| j.last_status == Some(RunStatus::Error)
}

/// Whether a status line reports an error: it starts with `Error`.
pub open spec fn is_error_status(msg: Seq<char>) -> bool {
    msg.len() >= 5 && msg.take(5) == "Error"@
}

pub open spec fn error_message(e: Seq<char>) -> Seq<char> {
    "Error: "@ + e
}

impl SchedulerApp {
    /// The new-job form is empty, with the cron source chosen.
    pub open spec fn form_cleared(self) -> bool {
        &&& self.new_name@.len() == 0
        &&& self.new_schedule@.len() == 0
        &&& self.new_command@.len() == 0
        &&& self.new_label@.len() == 0
        &&& !self.new_source_is_launchd
    }

    /// The two states hold the same jobs, preamble, mode and expanded set.
    pub open spec fn same_data(self, other: Self) -> bool {
        &&& self.jobs == other.jobs
        &&& self.crontab_preamble == other.crontab_preamble
        &&& self.use_mock == other.use_mock
        &&& self.expanded_jobs == other.expanded_jobs
    }

    /// The two states hold the same form and dialog state.
    pub open spec fn same_form(self, other: Self) -> bool {
        &&& self.show_add_dialog == other.show_add_dialog
        &&& self.new_name == other.new_name
        &&& self.new_schedule == other.new_schedule
        &&& self.new_command == other.new_command
        &&& self.new_label == other.new_label
        &&& self.new_source_is_launchd == other.new_source_is_launchd
    }

    /// A scheduler over `jobs` and `crontab_preamble`, with the dialog closed, the
    /// form empty, no status line and no job expanded.
    pub fn new(jobs: Vec<CronJob>, crontab_preamble: Vec<String>, use_mock: bool) -> (app: Self)
        ensures
            app.jobs == jobs,
            app.crontab_preamble == crontab_preamble,
            app.use_mock == use_mock,
            !app.show_add_dialog,
            app.form_cleared(),
            app.status_msg is None,
            app.expanded_jobs@ == Set::<usize>::empty(),
    {
        SchedulerApp {
            jobs,
            crontab_preamble,
            use_mock,
            show_add_dialog: false,
            new_name: String::new(),
            new_schedule: String::new(),
            new_command: String::new(),
            new_label: String::new(),
            new_source_is_launchd: false,
            status_msg: None,
            expanded_jobs: HashSet::new(),
        }
    }

    /// Empties the new-job form and chooses the cron source.
    pub fn clear_form(&mut self)
        ensures
            final(self).form_cleared(),
            final(self).same_data(*old(self)),
            final(self).show_add_dialog == old(self).show_add_dialog,
            final(self).status_msg == old(self).status_msg,
    {
        self.new_name = String::new();
        self.new_schedule = String::new();
        self.new_command = String::new();
        self.new_label = String::new();
        self.new_source_is_launchd = false;
    }

    /// The index of the first job with id `id`.
    pub fn job_index(&self, id: usize) -> (r: Option<usize>)
        ensures
            match r {
                Some(k) => first_job(self.jobs@, id) == Some(k as int) && k < self.jobs.len(),
                None => first_job(self.jobs@, id) is None,
            },
    {
        let mut i: usize = 0;
        while i < self.jobs.len()
            invariant
                0 <= i <= self.jobs.len(),
                first_job(self.jobs@, id) == match first_job(self.jobs@.skip(i as int), id) {
                    Some(k) => Some(k + i),
                    None => None,
                },
            decreases self.jobs.len() - i,
        {
            assert(self.jobs@.skip(i as int).drop_first() =~= self.jobs@.skip(i + 1));
            if self.jobs[i].id == id {
                proof {
                    lemma_first_job(self.jobs@, id);
                }
                return Some(i);
            }
            i += 1;
        }
        assert(self.jobs@.skip(self.jobs.len() as int) =~= Seq::<CronJob>::empty());
        None
    }

    /// The crontab text to write on a save: none in mock mode; else the preamble
    /// and the crontab's jobs (launchd jobs left out), in order.
    pub fn crontab_to_save(&self) -> (r: Option<String>)
        ensures
            self.use_mock ==> r is None,
            !self.use_mock ==> (r matches Some(t) && t@ == crontab_text_spec(
                string_views(self.crontab_preamble@),
                job_entries(cron_jobs(self.jobs@)),
            )),
    {
        if self.use_mock {
            return None;
        }
        Some(crontab_text_filtered(self.crontab_preamble.as_slice(), self.jobs.as_slice(), true))
    }

    /// Takes the outcome of writing the crontab into the status line.
    pub fn finish_save(&mut self, result: Result<(), String>)
        ensures
            final(self).same_data(*old(self)),
            final(self).same_form(*old(self)),
            match result {
                Ok(_) => final(self).status_msg matches Some(m) && m@ == "Crontab saved."@,
                Err(e) => final(self).status_msg matches Some(m) && m@ == error_message(e@),
            },
    {
        match result {
            Ok(_) => {
                self.status_msg = Some("Crontab saved.".to_owned());
            },
            Err(e) => {
                self.status_msg = Some(error_text(&e));
            },
        }
    }

    /// What toggling job `id` asks of launchd: the property-list path of the first
    /// job with that id and whether to load it (it is disabled) or unload it; none
    /// when there is no such job or it lives in the crontab.
    pub fn launchd_toggle_request(&self, id: usize) -> (r: Option<(String, bool)>)
        ensures
            match first_job(self.jobs@, id) {
                None => r is None,
                Some(k) => match self.jobs@[k].source {
                    JobSource::Cron => r is None,
                    JobSource::Launchd { plist_path, .. } => r matches Some((p, load)) && p@
                        == plist_path@ && load == !self.jobs@[k].enabled,
                },
            },
    {
        match self.job_index(id) {
            None => None,
            Some(k) => match &self.jobs[k].source {
                JobSource::Cron => None,
                JobSource::Launchd { plist_path, .. } => Some((plist_path.clone(), !self.jobs[k].enabled)),
            },
        }
    }

    /// Takes the outcome of loading (`loaded`) or unloading a launchd job: on
    /// success the first job with id `id` takes that state and the status line says
    /// so; on failure only the status line changes.
    pub fn finish_launchd_toggle(&mut self, id: usize, loaded: bool, result: Result<(), String>)
        ensures
            final(self).same_form(*old(self)),
            final(self).crontab_preamble@ == old(self).crontab_preamble@,
            final(self).use_mock == old(self).use_mock,
            final(self).expanded_jobs@ == old(self).expanded_jobs@,
            match result {
                Ok(_) => {
                    &&& final(self).jobs@ == with_enabled(old(self).jobs@, id, loaded)
                    &&& final(self).status_msg matches Some(m)
                    &&& m@ == if loaded { "Job loaded."@ } else { "Job unloaded."@ }
                },
                Err(e) => {
                    &&& final(self).jobs@ == old(self).jobs@
                    &&& final(self).status_msg matches Some(m)
                    &&& m@ == error_message(e@)
                },
            },
    {
        match result {
            Ok(_) => {
                self.set_enabled(id, loaded);
                self.status_msg = Some(if loaded { "Job loaded.".to_owned() } else { "Job unloaded.".to_owned() });
            },
            Err(e) => {
                self.status_msg = Some(error_text(&e));
            },
        }
    }

    fn set_enabled(&mut self, id: usize, enabled: bool)
        ensures
            final(self).jobs@ == with_enabled(old(self).jobs@, id, enabled),
            final(self).same_form(*old(self)),
            final(self).crontab_preamble == old(self).crontab_preamble,
            final(self).use_mock == old(self).use_mock,
            final(self).expanded_jobs == old(self).expanded_jobs,
            final(self).status_msg == old(self).status_msg,
    {
        match self.job_index(id) {
            Some(k) => {
                self.jobs[k].enabled = enabled;
                assert(self.jobs@ =~= old(self).jobs@.update(k as int, CronJob { enabled: enabled, ..old(self).jobs@[k as int] }));
            },
            None => {},
        }
    }

    /// Flips the state of the first job with id `id` (a crontab job; the caller then
    /// saves the crontab).
    pub fn toggle_cron_job(&mut self, id: usize)
        ensures
            final(self).jobs@ == toggled(old(self).jobs@, id),
            final(self).same_form(*old(self)),
            final(self).crontab_preamble == old(self).crontab_preamble,
            final(self).use_mock == old(self).use_mock,
            final(self).expanded_jobs == old(self).expanded_jobs,
            final(self).status_msg == old(self).status_msg,
    {
        match self.job_index(id) {
            Some(k) => {
                let e = self.jobs[k].enabled;
                self.jobs[k].enabled = !e;
                assert(self.jobs@ =~= old(self).jobs@.update(k as int, CronJob { enabled: !e, ..old(self).jobs@[k as int] }));
            },
            None => {},
        }
    }

    /// Removes every job with id `id`, keeping the others in order.
    pub fn remove_job(&mut self, id: usize)
        ensures
            final(self).jobs@ == old(self).jobs@.filter(|j: CronJob| j.id != id),
            final(self).same_form(*old(self)),
            final(self).crontab_preamble == old(self).crontab_preamble,
            final(self).use_mock == old(self).use_mock,
            final(self).expanded_jobs == old(self).expanded_jobs,
            final(self).status_msg == old(self).status_msg,
    {
        let ghost pred = |j: CronJob| j.id != id;
        let ghost old_jobs = self.jobs@;
        let ghost mut j: int = 0;
        let mut i: usize = 0;
        proof {
            reveal(Seq::filter);
            assert(old_jobs.take(0) =~= Seq::<CronJob>::empty());
            assert(self.jobs@.take(0) =~= Seq::<CronJob>::empty());
            assert(old_jobs.skip(0) =~= old_jobs);
        }
        while i < self.jobs.len()
            invariant
                0 <= i <= self.jobs.len(),
                0 <= j <= old_jobs.len(),
                pred == (|j: CronJob| j.id != id),
                self.jobs@.take(i as int) == old_jobs.take(j).filter(pred),
                self.jobs@.skip(i as int) == old_jobs.skip(j),
                self.same_form(*old(self)),
                self.crontab_preamble == old(self).crontab_preamble,
                self.use_mock == old(self).use_mock,
                self.expanded_jobs == old(self).expanded_jobs,
                self.status_msg == old(self).status_msg,
            decreases self.jobs.len() - i,
        {
            let ghost before = self.jobs@;
            assert(before.skip(i as int).len() == before.len() - i);
            assert(old_jobs.skip(j).len() == old_jobs.len() - j);
            assert(j < old_jobs.len());
            assert(old_jobs.skip(j)[0] == before.skip(i as int)[0]);
            proof {
                old_jobs.take(j).lemma_filter_push(old_jobs[j], pred);
                assert(old_jobs.take(j + 1) =~= old_jobs.take(j).push(old_jobs[j]));
            }
            if self.jobs[i].id == id {
                self.jobs.remove(i);
                assert(self.jobs@.take(i as int) =~= before.take(i as int));
                assert(self.jobs@.skip(i as int) =~= before.skip(i as int).drop_first());
                assert(old_jobs.skip(j).drop_first() =~= old_jobs.skip(j + 1));
            } else {
                assert(before.take(i + 1) =~= before.take(i as int).push(before[i as int]));
                assert(before.skip(i + 1) =~= before.skip(i as int).drop_first());
                assert(old_jobs.skip(j).drop_first() =~= old_jobs.skip(j + 1));
                i += 1;
            }
            proof {
                j = j + 1;
            }
        }
        proof {
            assert(self.jobs@.skip(i as int).len() == 0);
            assert(j == old_jobs.len());
            assert(old_jobs.take(j) =~= old_jobs);
            assert(self.jobs@.take(i as int) =~= self.jobs@);
        }
    }

    /// Takes the outcome of deleting a launchd job: on success every job with id
    /// `id` goes and the status line says so; on failure only the status line
    /// changes.
    pub fn finish_launchd_delete(&mut self, id: usize, result: Result<(), String>)
        ensures
            final(self).same_form(*old(self)),
            final(self).crontab_preamble == old(self).crontab_preamble,
            final(self).use_mock == old(self).use_mock,
            final(self).expanded_jobs == old(self).expanded_jobs,
            match result {
                Ok(_) => {
                    &&& final(self).jobs@ == old(self).jobs@.filter(|j: CronJob| j.id != id)
                    &&& final(self).status_msg matches Some(m)
                    &&& m@ == "Launchd job deleted."@
                },
                Err(e) => {
                    &&& final(self).jobs@ == old(self).jobs@
                    &&& final(self).status_msg matches Some(m)
                    &&& m@ == error_message(e@)
                },
            },
    {
        match result {
            Ok(_) => {
                self.remove_job(id);
                self.status_msg = Some("Launchd job deleted.".to_owned());
            },
            Err(e) => {
                self.status_msg = Some(error_text(&e));
            },
        }
    }

    /// The number of enabled jobs, of jobs whose last run succeeded, and of jobs
    /// whose last run failed.
    pub fn job_stats(&self) -> (r: (usize, usize, usize))
        ensures
            r.0 == self.jobs@.filter(enabled_pred()).len(),
            r.1 == self.jobs@.filter(passing_pred()).len(),
            r.2 == self.jobs@.filter(failing_pred()).len(),
    {
        let mut active: usize = 0;
        let mut passing: usize = 0;
        let mut failing: usize = 0;
        let mut i: usize = 0;
        proof {
            reveal(Seq::filter);
            assert(self.jobs@.take(0) =~= Seq::<CronJob>::empty());
        }
        while i < self.jobs.len()
            invariant
                0 <= i <= self.jobs.len(),
                active == self.jobs@.take(i as int).filter(enabled_pred()).len(),
                passing == self.jobs@.take(i as int).filter(passing_pred()).len(),
                failing == self.jobs@.take(i as int).filter(failing_pred()).len(),
            decreases self.jobs.len() - i,
        {
            let ghost t = self.jobs@.take(i as int);
            proof {
                assert(self.jobs@.take(i + 1) =~= t.push(self.jobs@[i as int]));
                t.lemma_filter_push(self.jobs@[i as int], enabled_pred());
                t.lemma_filter_push(self.jobs@[i as int], passing_pred());
                t.lemma_filter_push(self.jobs@[i as int], failing_pred());
                t.lemma_filter_len(enabled_pred());
                t.lemma_filter_len(passing_pred());
                t.lemma_filter_len(failing_pred());
            }
            if self.jobs[i].enabled {
                active += 1;
            }
            match self.jobs[i].last_status {
                Some(RunStatus::Success) => {
                    passing += 1;
                },
                Some(RunStatus::Error) => {
                    failing += 1;
                },
                _ => {},
            }
            i += 1;
        }
        assert(self.jobs@.take(self.jobs.len() as int) =~= self.jobs@);
        (active, passing, failing)
    }

    /// Whether the new-job form can be submitted: name, schedule and command are
    /// filled in, and the label too for a launchd job.
    pub open spec fn can_add_spec(self) -> bool {
        &&& self.new_name@.len() > 0
        &&& self.new_schedule@.len() > 0
        &&& self.new_command@.len() > 0
        &&& (!self.new_source_is_launchd || self.new_label@.len() > 0)
    }

    /// Whether the new-job form can be submitted.
    pub fn can_add(&self) -> (r: bool)
        ensures
            r == self.can_add_spec(),
    {
        let label_ok = !self.new_source_is_launchd || !self.new_label.as_str().is_empty();
        !self.new_name.as_str().is_empty() && !self.new_schedule.as_str().is_empty()
            && !self.new_command.as_str().is_empty() && label_ok
    }

    /// The largest job id, 0 when there are no jobs.
    pub fn max_job_id(&self) -> (r: usize)
        ensures
            r == max_id(self.jobs@),
    {
        let mut m: usize = 0;
        let mut i: usize = 0;
        assert(self.jobs@.take(0) =~= Seq::<CronJob>::empty());
        while i < self.jobs.len()
            invariant
                0 <= i <= self.jobs.len(),
                m == max_id(self.jobs@.take(i as int)),
            decreases self.jobs.len() - i,
        {
            assert(self.jobs@.take(i + 1).drop_last() =~= self.jobs@.take(i as int));
            if self.jobs[i].id > m {
                m = self.jobs[i].id;
            }
            i += 1;
        }
        assert(self.jobs@.take(self.jobs.len() as int) =~= self.jobs@);
        m
    }

    /// `j` is the job the form describes: id one above the largest, enabled, never
    /// run.
    pub open spec fn is_form_job(self, j: CronJob) -> bool {
        &&& j.id == max_id(self.jobs@) + 1
        &&& j.name@ == self.new_name@
        &&& j.schedule@ == self.new_schedule@
        &&& j.command@ == self.new_command@
        &&& j.enabled
        &&& j.last_run is None
        &&& j.last_status is None
        &&& j.last_duration is None
        &&& j.logs@.len() == 0
    }

    fn form_job(&self, source: JobSource) -> (j: CronJob)
        requires
            max_id(self.jobs@) < usize::MAX,
        ensures
            self.is_form_job(j),
            j.source == source,
    {
        let id = self.max_job_id() + 1;
        CronJob {
            id,
            name: self.new_name.clone(),
            schedule: self.new_schedule.clone(),
            command: self.new_command.clone(),
            enabled: true,
            source,
            last_run: None,
            last_status: None,
            last_duration: None,
            logs: Vec::new(),
        }
    }

    /// Adds the crontab job the form describes, closes the dialog and empties the
    /// form (the caller then saves the crontab).
    pub fn add_cron_job(&mut self)
        requires
            max_id(old(self).jobs@) < usize::MAX,
        ensures
            final(self).jobs@.len() == old(self).jobs@.len() + 1,
            final(self).jobs@.drop_last() == old(self).jobs@,
            old(self).is_form_job(final(self).jobs@.last()),
            forall|l: int| 0 <= l < old(self).jobs@.len() ==> (#[trigger] old(self).jobs@[l]).id != final(self).jobs@.last().id,
            final(self).jobs@.last().source == JobSource::Cron,
            !final(self).show_add_dialog,
            final(self).form_cleared(),
            final(self).crontab_preamble == old(self).crontab_preamble,
            final(self).use_mock == old(self).use_mock,
            final(self).expanded_jobs == old(self).expanded_jobs,
            final(self).status_msg == old(self).status_msg,
    {
        let j = self.form_job(JobSource::Cron);
        proof {
            lemma_new_id_fresh(self.jobs@, j);
        }
        self.jobs.push(j);
        self.show_add_dialog = false;
        self.clear_form();
    }

    /// Takes the outcome of writing and loading a launchd agent for the form: on
    /// success the job goes in with its property-list path, the dialog closes, the
    /// form empties and the status line says so; on failure only the status line
    /// changes.
    pub fn add_launchd_job(&mut self, result: Result<String, String>)
        requires
            result is Ok ==> max_id(old(self).jobs@) < usize::MAX,
        ensures
            final(self).crontab_preamble == old(self).crontab_preamble,
            final(self).use_mock == old(self).use_mock,
            final(self).expanded_jobs == old(self).expanded_jobs,
            match result {
                Ok(path) => {
                    &&& final(self).jobs@.len() == old(self).jobs@.len() + 1
                    &&& final(self).jobs@.drop_last() == old(self).jobs@
                    &&& old(self).is_form_job(final(self).jobs@.last())
                    &&& forall|l: int| 0 <= l < old(self).jobs@.len() ==> (#[trigger] old(self).jobs@[l]).id != final(self).jobs@.last().id
                    &&& final(self).jobs@.last().source matches JobSource::Launchd { label, plist_path }
                    &&& label@ == old(self).new_label@
                    &&& plist_path@ == path@
                    &&& !final(self).show_add_dialog
                    &&& final(self).form_cleared()
                    &&& final(self).status_msg matches Some(m)
                    &&& m@ == "Launchd job created."@
                },
                Err(e) => {
                    &&& final(self).jobs@ == old(self).jobs@
                    &&& final(self).same_form(*old(self))
                    &&& final(self).status_msg matches Some(m)
                    &&& m@ == error_message(e@)
                },
            },
    {
        match result {
            Ok(path) => {
                let label = self.new_label.clone();
                let j = self.form_job(JobSource::Launchd { label, plist_path: path });
                proof {
                    lemma_new_id_fresh(self.jobs@, j);
                }
                self.jobs.push(j);
                self.show_add_dialog = false;
                self.clear_form();
                self.status_msg = Some("Launchd job created.".to_owned());
            },
            Err(e) => {
                self.status_msg = Some(error_text(&e));
            },
        }
    }

    /// The user toggles job `id`: a crontab job flips and the crontab is to be
    /// saved; a launchd job is to be loaded or unloaded, the opposite of its state;
    /// nothing when there is no such job.
    pub fn toggle_job(&mut self, id: usize) -> (e: Effect)
        ensures
            final(self).same_form(*old(self)),
            final(self).crontab_preamble == old(self).crontab_preamble,
            final(self).use_mock == old(self).use_mock,
            final(self).expanded_jobs == old(self).expanded_jobs,
            final(self).status_msg == old(self).status_msg,
            match first_job(old(self).jobs@, id) {
                None => e is Nothing && final(self).jobs@ == old(self).jobs@,
                Some(k) => match old(self).jobs@[k].source {
                    JobSource::Cron => e is SaveCrontab && final(self).jobs@ == toggled(old(self).jobs@, id),
                    JobSource::Launchd { plist_path, .. } => {
                        &&& e matches Effect::Launchctl { plist_path: p, load }
                        &&& p@ == plist_path@
                        &&& load == !old(self).jobs@[k].enabled
                        &&& final(self).jobs@ == old(self).jobs@
                    },
                },
            },
    {
        match self.job_index(id) {
            None => Effect::Nothing,
            Some(k) => match &self.jobs[k].source {
                JobSource::Cron => {
                    self.toggle_cron_job(id);
                    Effect::SaveCrontab
                },
                JobSource::Launchd { plist_path, .. } => Effect::Launchctl {
                    plist_path: plist_path.clone(),
                    load: !self.jobs[k].enabled,
                },
            },
        }
    }

    /// The user deletes job `id`: a crontab job goes (every job with that id) and
    /// the crontab is to be saved; a launchd agent is to be removed first; nothing
    /// when there is no such job.
    pub fn delete_job(&mut self, id: usize) -> (e: Effect)
        ensures
            final(self).same_form(*old(self)),
            final(self).crontab_preamble == old(self).crontab_preamble,
            final(self).use_mock == old(self).use_mock,
            final(self).expanded_jobs == old(self).expanded_jobs,
            final(self).status_msg == old(self).status_msg,
            match first_job(old(self).jobs@, id) {
                None => e is Nothing && final(self).jobs@ == old(self).jobs@,
                Some(k) => match old(self).jobs@[k].source {
                    JobSource::Cron => e is SaveCrontab && final(self).jobs@ == old(self).jobs@.filter(
                        |j: CronJob| j.id != id,
                    ),
                    JobSource::Launchd { plist_path, .. } => {
                        &&& e matches Effect::DeleteAgent { plist_path: p }
                        &&& p@ == plist_path@
                        &&& final(self).jobs@ == old(self).jobs@
                    },
                },
            },
    {
        match self.job_index(id) {
            None => Effect::Nothing,
            Some(k) => match &self.jobs[k].source {
                JobSource::Cron => {
                    self.remove_job(id);
                    Effect::SaveCrontab
                },
                JobSource::Launchd { plist_path, .. } => Effect::DeleteAgent { plist_path: plist_path.clone() },
            },
        }
    }

    /// The user submits the new-job form: nothing unless it can be submitted; a
    /// launchd job asks for its agent to be written (the job goes in with
    /// `add_launchd_job`); a crontab job goes in as `add_cron_job` says and the
    /// crontab is to be saved.
    pub fn submit_form(&mut self) -> (e: Effect)
        requires
            old(self).can_add_spec() ==> max_id(old(self).jobs@) < usize::MAX,
        ensures
            final(self).crontab_preamble == old(self).crontab_preamble,
            final(self).use_mock == old(self).use_mock,
            final(self).expanded_jobs == old(self).expanded_jobs,
            final(self).status_msg == old(self).status_msg,
            !old(self).can_add_spec() ==> {
                &&& e is Nothing
                &&& final(self).jobs@ == old(self).jobs@
                &&& final(self).same_form(*old(self))
            },
            old(self).can_add_spec() && old(self).new_source_is_launchd ==> {
                &&& e matches Effect::WriteAgent { label, command, schedule }
                &&& label@ == old(self).new_label@
                &&& command@ == old(self).new_command@
                &&& schedule@ == old(self).new_schedule@
                &&& final(self).jobs@ == old(self).jobs@
                &&& final(self).same_form(*old(self))
            },
            old(self).can_add_spec() && !old(self).new_source_is_launchd ==> {
                &&& e is SaveCrontab
                &&& final(self).jobs@.len() == old(self).jobs@.len() + 1
                &&& final(self).jobs@.drop_last() == old(self).jobs@
                &&& old(self).is_form_job(final(self).jobs@.last())
                &&& forall|l: int| 0 <= l < old(self).jobs@.len()
                    ==> (#[trigger] old(self).jobs@[l]).id != final(self).jobs@.last().id
                &&& final(self).jobs@.last().source == JobSource::Cron
                &&& !final(self).show_add_dialog
                &&& final(self).form_cleared()
            },
    {
        if !self.can_add() {
            return Effect::Nothing;
        }
        if self.new_source_is_launchd {
            Effect::WriteAgent {
                label: self.new_label.clone(),
                command: self.new_command.clone(),
                schedule: self.new_schedule.clone(),
            }
        } else {
            self.add_cron_job();
            Effect::SaveCrontab
        }
    }

    /// Closes the new-job dialog and empties the form.
    pub fn close_add_dialog(&mut self)
        ensures
            !final(self).show_add_dialog,
            final(self).form_cleared(),
            final(self).same_data(*old(self)),
            final(self).status_msg == old(self).status_msg,
    {
        self.show_add_dialog = false;
        self.clear_form();
    }

    /// Takes freshly read jobs and preamble: the jobs, or the demonstration jobs
    /// when there are none; the status line is cleared.
    pub fn reload(&mut self, jobs: Vec<CronJob>, preamble: Vec<String>)
        ensures
            jobs@.len() > 0 ==> final(self).jobs == jobs,
            ids_in_order(jobs@) ==> ids_in_order(final(self).jobs@),
            jobs@.len() == 0 ==> exists|now: Timestamp|
                now.wf() && is_sample_jobs(final(self).jobs@, now),
            final(self).crontab_preamble == preamble,
            final(self).status_msg is None,
            final(self).same_form(*old(self)),
            final(self).use_mock == old(self).use_mock,
            final(self).expanded_jobs == old(self).expanded_jobs,
    {
        self.jobs = jobs_or_samples(jobs);
        self.crontab_preamble = preamble;
        self.status_msg = None;
    }

    /// Puts the demonstration jobs back (mock mode); the status line is cleared.
    pub fn reload_mock(&mut self)
        ensures
            ids_in_order(final(self).jobs@),
            exists|now: Timestamp| now.wf() && is_sample_jobs(final(self).jobs@, now),
            final(self).status_msg is None,
            final(self).crontab_preamble == old(self).crontab_preamble,
            final(self).same_form(*old(self)),
            final(self).use_mock == old(self).use_mock,
            final(self).expanded_jobs == old(self).expanded_jobs,
    {
        self.jobs = sample_jobs();
        self.status_msg = None;
    }

    /// Records a run of the first job with id `id`, read from the clock twice as
    /// the run's log time and its last-run time: as `record_run_at` says for some
    /// two valid timestamps.
    pub fn record_run(&mut self, id: usize, status: RunStatus, duration: String, output: String)
        ensures
            final(self).same_form(*old(self)),
            final(self).crontab_preamble == old(self).crontab_preamble,
            final(self).use_mock == old(self).use_mock,
            final(self).expanded_jobs == old(self).expanded_jobs,
            final(self).status_msg == old(self).status_msg,
            exists|logged: Timestamp, last: Timestamp|
                logged.wf() && last.wf() && run_recorded(
                    old(self).jobs@,
                    final(self).jobs@,
                    id,
                    status,
                    duration@,
                    output@,
                    logged,
                    last,
                ),
    {
        let logged = now_timestamp();
        let last = now_timestamp();
        self.record_run_at(id, status, duration, output, logged, last);
    }

    /// Records a run of the first job with id `id` logged at `logged`: the new log
    /// goes first, and the job's last run becomes `last`, its status and duration
    /// those of the run. Nothing changes when there is no such job.
    pub fn record_run_at(
        &mut self,
        id: usize,
        status: RunStatus,
        duration: String,
        output: String,
        logged: Timestamp,
        last: Timestamp,
    )
        ensures
            final(self).same_form(*old(self)),
            final(self).crontab_preamble == old(self).crontab_preamble,
            final(self).use_mock == old(self).use_mock,
            final(self).expanded_jobs == old(self).expanded_jobs,
            final(self).status_msg == old(self).status_msg,
            run_recorded(old(self).jobs@, final(self).jobs@, id, status, duration@, output@, logged, last),
    {
        match self.job_index(id) {
            None => {},
            Some(k) => {
                let log = RunLog { timestamp: logged, status, duration: duration.clone(), output };
                let mut job = self.jobs.remove(k);
                let ghost o = job;
                job.last_run = Some(last);
                job.last_status = Some(status);
                job.last_duration = Some(duration);
                job.logs.insert(0, log);
                assert(job.logs@.drop_first() =~= o.logs@);
                self.jobs.insert(k, job);
                assert(self.jobs@ =~= old(self).jobs@.update(k as int, job));
            },
        }
    }
}

/// `after` is `before` with a run of the first job with id `id` recorded: that job
/// alone changes, its new log (at `logged`, with the run's status, duration and
/// output) goes first, and its last run, status and duration become `last` and the
/// run's; `after` is `before` when there is no such job.
pub open spec fn run_recorded(
    before: Seq<CronJob>,
    after: Seq<CronJob>,
    id: usize,
    status: RunStatus,
    duration: Seq<char>,
    output: Seq<char>,
    logged: Timestamp,
    last: Timestamp,
) -> bool {
    &&& after.len() == before.len()
    &&& match first_job(before, id) {
        None => after == before,
        Some(k) => {
            let o = before[k];
            let j = after[k];
            &&& forall|l: int| 0 <= l < before.len() && l != k ==> after[l] == before[l]
            &&& j.id == o.id
            &&& j.name == o.name
            &&& j.schedule == o.schedule
            &&& j.command == o.command
            &&& j.enabled == o.enabled
            &&& j.source == o.source
            &&& j.last_run == Some(last)
            &&& j.last_status == Some(status)
            &&& j.last_duration matches Some(d) && d@ == duration
            &&& j.logs@.len() == o.logs@.len() + 1
            &&& j.logs@.drop_first() == o.logs@
            &&& j.logs@[0].timestamp == logged
            &&& j.logs@[0].status == status
            &&& j.logs@[0].duration@ == duration
            &&& j.logs@[0].output@ == output
        },
    }
}

fn error_text(e: &String) -> (r: String)
    ensures
        r@ == error_message(e@),
{
    let mut t = chars_of("Error: ");
    let ec = chars_of(e.as_str());
    append_vec(&mut t, &ec);
    string_of(&t)
}

/// The status and the texts of a run that took `elapsed_secs` seconds
/// (`elapsed_millis` milliseconds): its status, its duration and its output text.
pub fn run_outcome(elapsed_secs: u64, elapsed_millis: u128, output: &Result<CommandOutput, String>) -> (r: (RunStatus, String, String))
    ensures
        r.0 == run_result(*output).0,
        r.1@ == duration_text(elapsed_secs, elapsed_millis),
        r.2@ == run_result(*output).1,
{
    let mut d: Vec<char>;
    if elapsed_secs > 0 {
        d = nat_digits_of(elapsed_secs as u128);
        d.push('s');
        assert(d@ =~= nat_digits(elapsed_secs as nat) + "s"@) by {
            reveal_strlit("s");
        }
    } else {
        d = nat_digits_of(elapsed_millis);
        let ms = chars_of("ms");
        append_vec(&mut d, &ms);
    }
    let duration = string_of(&d);
    match output {
        Ok(o) => {
            let out = chars_of(o.stdout.as_str());
            let err = chars_of(o.stderr.as_str());
            let trimmed_out = trim_chars(&out);
            let text = if trimmed_out.len() == 0 {
                trim_chars(&err)
            } else {
                trimmed_out
            };
            if o.success {
                let t = if text.len() == 0 {
                    "Completed successfully.".to_owned()
                } else {
                    string_of(&text)
                };
                (RunStatus::Success, duration, t)
            } else {
                let t = if text.len() == 0 {
                    "Command failed.".to_owned()
                } else {
                    string_of(&text)
                };
                (RunStatus::Error, duration, t)
            }
        },
        Err(e) => {
            let mut t = chars_of("Failed to execute: ");
            let ec = chars_of(e.as_str());
            append_vec(&mut t, &ec);
            (RunStatus::Error, duration, string_of(&t))
        },
    }
}

/// Whether a status line reports an error.
pub fn status_is_error(msg: &str) -> (r: bool)
    ensures
        r == is_error_status(msg@),
{
    let m = chars_of(msg);
    let e = chars_of("Error");
    proof {
        reveal_strlit("Error");
    }
    if m.len() < 5 {
        return false;
    }
    let head = sub_chars(&m, 0, 5);
    assert(head@ =~= m@.take(5));
    crate::text::eq_chars(&head, &e)
}

} // verus!
