//! Reading crontab text into jobs and writing jobs back as crontab text.
//!
//! A line is a job when, once trimmed, it splits at its first five whitespace
//! characters into six pieces whose first five are cron schedule fields (numbers,
//! `*`, `,`, `-`, `/`, or a month or day name); the sixth is the command. A job
//! line behind a `#` is a disabled job. Every other line (settings, plain comments,
//! blank lines) is kept, as it stands, in the preamble, and written back before the
//! jobs.

use vstd::prelude::*;
use crate::models::{ids_in_order, CronJob, JobSource};
use crate::text::{
    append_vec, chars_of, is_ws, join_chars, join_with, lemma_join_free, lemma_join_front,
    lemma_lines_free, lemma_lines_nonempty, lemma_lines_of_joined, lemma_split_join_pred,
    lemma_split_parts_free, lemma_splitn_join, lemma_splitn_shape, lemma_trim_props,
    lemma_trim_space, lemma_trim_unchanged, lemma_trim_behind, lemma_trim_of_trim_end, lines, lines_of, split_by, splitn_whitespace, splitn_ws, string_of,
    string_views, sub_chars, trim, trim_chars, views, ws_pred,
};
use crate::util::{extract_name_chars, extract_name_spec};

verus! {

broadcast use vstd::seq_lib::group_seq_properties;

/// A job as crontab text holds it: schedule, command, and whether it is enabled.
pub type Entry = (Seq<char>, Seq<char>, bool);

/// A character of a numeric schedule field: a decimal digit, `*`, `,`, `-` or `/`.
pub open spec fn is_field_char(c: char) -> bool {
    ('0' <= c && c <= '9') || c == '*' || c == ',' || c == '-' || c == '/'
}

/// A numeric schedule field (`5`, `*/15`, `1-5`, `0,30`): one or more field
/// characters.
pub open spec fn numeric_field(f: Seq<char>) -> bool {
    f.len() > 0 && forall|k: int| 0 <= k < f.len() ==> is_field_char(#[trigger] f[k])
}

/// `f` is the name given in lower case (`lower`) and in upper case (`upper`),
/// each letter in either case.
pub open spec fn names_match(f: Seq<char>, lower: Seq<char>, upper: Seq<char>) -> bool {
    &&& f.len() == lower.len()
    &&& lower.len() == upper.len()
    &&& forall|k: int| 0 <= k < f.len() ==> #[trigger] f[k] == lower[k] || f[k] == upper[k]
}

/// A month by the first three letters of its English name, in any case.
pub open spec fn is_month_name(f: Seq<char>) -> bool {
    ||| names_match(f, "jan"@, "JAN"@)
    ||| names_match(f, "feb"@, "FEB"@)
    ||| names_match(f, "mar"@, "MAR"@)
    ||| names_match(f, "apr"@, "APR"@)
    ||| names_match(f, "may"@, "MAY"@)
    ||| names_match(f, "jun"@, "JUN"@)
    ||| names_match(f, "jul"@, "JUL"@)
    ||| names_match(f, "aug"@, "AUG"@)
    ||| names_match(f, "sep"@, "SEP"@)
    ||| names_match(f, "oct"@, "OCT"@)
    ||| names_match(f, "nov"@, "NOV"@)
    ||| names_match(f, "dec"@, "DEC"@)
}

/// A day of the week by the first three letters of its English name, in any case.
pub open spec fn is_day_name(f: Seq<char>) -> bool {
    ||| names_match(f, "sun"@, "SUN"@)
    ||| names_match(f, "mon"@, "MON"@)
    ||| names_match(f, "tue"@, "TUE"@)
    ||| names_match(f, "wed"@, "WED"@)
    ||| names_match(f, "thu"@, "THU"@)
    ||| names_match(f, "fri"@, "FRI"@)
    ||| names_match(f, "sat"@, "SAT"@)
}

/// Five pieces that form a cron schedule: minute, hour and day of month numeric;
/// month numeric or a month name; day of week numeric or a day name. Words of
/// plain text (a comment such as `# Run the nightly backup`) are not.
pub open spec fn schedule_fields(f: Seq<Seq<char>>) -> bool {
    &&& f.len() == 5
    &&& numeric_field(f[0])
    &&& numeric_field(f[1])
    &&& numeric_field(f[2])
    &&& (numeric_field(f[3]) || is_month_name(f[3]))
    &&& (numeric_field(f[4]) || is_day_name(f[4]))
}

/// The schedule and the command of a job line: the first five pieces of
/// `splitn(6, char::is_whitespace)` joined with single spaces, and the sixth piece,
/// when those five pieces form a cron schedule.
pub open spec fn cron_fields(line: Seq<char>) -> Option<(Seq<char>, Seq<char>)> {
    let p = splitn_ws(line, 6);
    if p.len() >= 6 && schedule_fields(p.take(5)) {
        Some((join_with(p.take(5), seq![' ']), p[5]))
    } else {
        None
    }
}

/// The job that a crontab line holds, if it holds one.
pub open spec fn line_entry(line: Seq<char>) -> Option<Entry> {
    let t = trim(line);
    if t.len() == 0 {
        None
    } else if t[0] == '#' {
        match cron_fields(trim(t.drop_first())) {
            Some(f) => Some((f.0, f.1, false)),
            None => None,
        }
    } else {
        match cron_fields(t) {
            Some(f) => Some((f.0, f.1, true)),
            None => None,
        }
    }
}

/// The jobs of a sequence of crontab lines, in order, and the lines that are not jobs.
pub open spec fn parse_lines(ls: Seq<Seq<char>>) -> (Seq<Entry>, Seq<Seq<char>>)
    decreases ls.len(),
{
    if ls.len() == 0 {
        (Seq::<Entry>::empty(), Seq::<Seq<char>>::empty())
    } else {
        let (es, pre) = parse_lines(ls.drop_last());
        match line_entry(ls.last()) {
            Some(e) => (es.push(e), pre),
            None => (es, pre.push(ls.last())),
        }
    }
}

/// The jobs and the preamble of crontab text.
pub open spec fn crontab_entries(content: Seq<char>) -> (Seq<Entry>, Seq<Seq<char>>) {
    parse_lines(lines(content))
}

/// The crontab line of a job: `schedule command`, behind `# ` when disabled.
pub open spec fn entry_line(e: Entry) -> Seq<char> {
    if e.2 {
        e.0 + seq![' '] + e.1
    } else {
        seq!['#', ' '] + e.0 + seq![' '] + e.1
    }
}

pub open spec fn entry_lines(es: Seq<Entry>) -> Seq<Seq<char>> {
    es.map_values(|e: Entry| entry_line(e))
}

/// The crontab text of a preamble and jobs: the preamble lines, then one line per
/// job, joined with newlines, and a final newline.
pub open spec fn crontab_text_spec(preamble: Seq<Seq<char>>, es: Seq<Entry>) -> Seq<char> {
    join_with(preamble + entry_lines(es), seq!['\n']) + seq!['\n']
}

pub open spec fn job_entry(j: CronJob) -> Entry {
    (j.schedule@, j.command@, j.enabled)
}

pub open spec fn job_entries(js: Seq<CronJob>) -> Seq<Entry> {
    js.map_values(|j: CronJob| job_entry(j))
}

/// `j` is a job just read: the given id, schedule, command and state, named after
/// its command, never run.
pub open spec fn fresh_job(
    j: CronJob,
    id: usize,
    schedule: Seq<char>,
    command: Seq<char>,
    enabled: bool,
) -> bool {
    &&& j.id == id
    &&& j.schedule@ == schedule
    &&& j.command@ == command
    &&& j.name@ == extract_name_spec(command)
    &&& j.enabled == enabled
    &&& j.last_run is None
    &&& j.last_status is None
    &&& j.last_duration is None
    &&& j.logs@.len() == 0
}

fn copy_chars(v: &Vec<char>) -> (r: Vec<char>)
    ensures
        r@ == v@,
{
    let r = sub_chars(v, 0, v.len());
    assert(r@ =~= v@);
    r
}

fn is_field_char_exec(c: char) -> (r: bool)
    ensures
        r == is_field_char(c),
{
    ('0' <= c && c <= '9') || c == '*' || c == ',' || c == '-' || c == '/'
}

fn numeric_field_exec(f: &Vec<char>) -> (r: bool)
    ensures
        r == numeric_field(f@),
{
    if f.len() == 0 {
        return false;
    }
    let mut i: usize = 0;
    while i < f.len()
        invariant
            0 <= i <= f.len(),
            forall|k: int| 0 <= k < i ==> is_field_char(#[trigger] f@[k]),
        decreases f.len() - i,
    {
        if !is_field_char_exec(f[i]) {
            return false;
        }
        i += 1;
    }
    true
}

fn names_match_exec(f: &Vec<char>, lower: &str, upper: &str) -> (r: bool)
    ensures
        r == names_match(f@, lower@, upper@),
{
    let lo = chars_of(lower);
    let up = chars_of(upper);
    if f.len() != lo.len() || lo.len() != up.len() {
        return false;
    }
    let mut i: usize = 0;
    while i < f.len()
        invariant
            0 <= i <= f.len(),
            f.len() == lo.len() == up.len(),
            lo@ == lower@,
            up@ == upper@,
            forall|k: int| 0 <= k < i ==> #[trigger] f@[k] == lo@[k] || f@[k] == up@[k],
        decreases f.len() - i,
    {
        if f[i] != lo[i] && f[i] != up[i] {
            return false;
        }
        i += 1;
    }
    true
}

fn is_month_name_exec(f: &Vec<char>) -> (r: bool)
    ensures
        r == is_month_name(f@),
{
    names_match_exec(f, "jan", "JAN") || names_match_exec(f, "feb", "FEB") || names_match_exec(f, "mar", "MAR")
        || names_match_exec(f, "apr", "APR") || names_match_exec(f, "may", "MAY") || names_match_exec(
        f,
        "jun",
        "JUN",
    ) || names_match_exec(f, "jul", "JUL") || names_match_exec(f, "aug", "AUG") || names_match_exec(
        f,
        "sep",
        "SEP",
    ) || names_match_exec(f, "oct", "OCT") || names_match_exec(f, "nov", "NOV") || names_match_exec(
        f,
        "dec",
        "DEC",
    )
}

fn is_day_name_exec(f: &Vec<char>) -> (r: bool)
    ensures
        r == is_day_name(f@),
{
    names_match_exec(f, "sun", "SUN") || names_match_exec(f, "mon", "MON") || names_match_exec(f, "tue", "TUE")
        || names_match_exec(f, "wed", "WED") || names_match_exec(f, "thu", "THU") || names_match_exec(
        f,
        "fri",
        "FRI",
    ) || names_match_exec(f, "sat", "SAT")
}

/// Whether the first five pieces form a cron schedule.
fn schedule_fields_exec(parts: &Vec<Vec<char>>) -> (r: bool)
    requires
        parts.len() >= 5,
    ensures
        r == schedule_fields(views(parts@).take(5)),
{
    let ghost f = views(parts@).take(5);
    assert(f[0] == parts@[0]@ && f[1] == parts@[1]@ && f[2] == parts@[2]@ && f[3] == parts@[3]@ && f[4] == parts@[4]@);
    numeric_field_exec(&parts[0]) && numeric_field_exec(&parts[1]) && numeric_field_exec(&parts[2])
        && (numeric_field_exec(&parts[3]) || is_month_name_exec(&parts[3])) && (numeric_field_exec(&parts[4])
        || is_day_name_exec(&parts[4]))
}

fn fields_of(line: &Vec<char>) -> (r: Option<(Vec<char>, Vec<char>)>)
    ensures
        match (r, cron_fields(line@)) {
            (None, None) => true,
            (Some((s, c)), Some((fs, fc))) => s@ == fs && c@ == fc,
            _ => false,
        },
{
    let parts = splitn_whitespace(line, 6);
    if parts.len() < 6 {
        return None;
    }
    if !schedule_fields_exec(&parts) {
        return None;
    }
    let ghost pv = views(parts@);
    let mut first: Vec<Vec<char>> = Vec::new();
    let mut i: usize = 0;
    while i < 5
        invariant
            0 <= i <= 5,
            parts.len() >= 6,
            pv == views(parts@),
            views(first@) == pv.take(i as int),
        decreases 5 - i,
    {
        let piece = copy_chars(&parts[i]);
        let ghost before = views(first@);
        first.push(piece);
        assert(views(first@) =~= before.push(piece@));
        assert(pv.take(i + 1) =~= pv.take(i as int).push(pv[i as int]));
        i += 1;
    }
    let mut space: Vec<char> = Vec::new();
    space.push(' ');
    assert(space@ =~= seq![' ']);
    let schedule = join_chars(&first, &space);
    let command = copy_chars(&parts[5]);
    Some((schedule, command))
}

fn new_job(id: usize, schedule: &Vec<char>, command: &Vec<char>, enabled: bool, source: JobSource) -> (j: CronJob)
    ensures
        fresh_job(j, id, schedule@, command@, enabled),
        j.source == source,
{
    let name = extract_name_chars(command);
    CronJob {
        id,
        name: string_of(&name),
        schedule: string_of(schedule),
        command: string_of(command),
        enabled,
        source,
        last_run: None,
        last_status: None,
        last_duration: None,
        logs: Vec::new(),
    }
}

/// The job that `line` holds, with the given id, state and source: `None` unless
/// the line splits at its first five whitespace characters into six pieces whose
/// first five are cron schedule fields.
pub fn try_parse_job(id: usize, line: &str, enabled: bool, source: JobSource) -> (r: Option<CronJob>)
    ensures
        match (r, cron_fields(line@)) {
            (None, None) => true,
            (Some(j), Some((s, c))) => fresh_job(j, id, s, c, enabled) && j.source == source,
            _ => false,
        },
{
    let cs = chars_of(line);
    match fields_of(&cs) {
        Some((schedule, command)) => Some(new_job(id, &schedule, &command, enabled, source)),
        None => None,
    }
}

fn line_entry_of(line: &Vec<char>) -> (r: Option<(Vec<char>, Vec<char>, bool)>)
    ensures
        match (r, line_entry(line@)) {
            (None, None) => true,
            (Some((s, c, en)), Some(e)) => s@ == e.0 && c@ == e.1 && en == e.2,
            _ => false,
        },
{
    let t = trim_chars(line);
    if t.len() == 0 {
        return None;
    }
    if t[0] == '#' {
        let rest = sub_chars(&t, 1, t.len());
        assert(rest@ =~= t@.drop_first());
        let rest = trim_chars(&rest);
        match fields_of(&rest) {
            Some((s, c)) => Some((s, c, false)),
            None => None,
        }
    } else {
        match fields_of(&t) {
            Some((s, c)) => Some((s, c, true)),
            None => None,
        }
    }
}

/// The jobs and the preamble of crontab text. Jobs are numbered from 0 in the
/// order of their lines; every line that is not a job stays in the preamble as
/// it stands.
pub fn parse_crontab(content: &str) -> (r: (Vec<CronJob>, Vec<String>))
    ensures
        ({
            let (es, pre) = crontab_entries(content@);
            &&& r.0.len() == es.len()
            &&& forall|i: int|
                0 <= i < es.len() ==> fresh_job(#[trigger] r.0@[i], i as usize, es[i].0, es[i].1, es[i].2)
                    && r.0@[i].source == JobSource::Cron
            &&& string_views(r.1@) == pre
            &&& ids_in_order(r.0@)
        }),
{
    let cs = chars_of(content);
    let ls = lines_of(&cs);
    let ghost lv = views(ls@);
    let mut jobs: Vec<CronJob> = Vec::new();
    let mut preamble: Vec<String> = Vec::new();
    let mut i: usize = 0;
    assert(lv.take(0) =~= Seq::<Seq<char>>::empty());
    assert(string_views(preamble@) =~= Seq::<Seq<char>>::empty());
    while i < ls.len()
        invariant
            0 <= i <= ls.len(),
            lv == views(ls@),
            lv == lines(content@),
            ({
                let (es, pre) = parse_lines(lv.take(i as int));
                &&& jobs.len() == es.len()
                &&& forall|k: int|
                    0 <= k < es.len() ==> fresh_job(#[trigger] jobs@[k], k as usize, es[k].0, es[k].1, es[k].2)
                        && jobs@[k].source == JobSource::Cron
                &&& string_views(preamble@) == pre
            }),
        decreases ls.len() - i,
    {
        assert(lv.take(i + 1).drop_last() =~= lv.take(i as int));
        assert(lv.take(i + 1).last() == lv[i as int]);
        let ghost before = string_views(preamble@);
        match line_entry_of(&ls[i]) {
            Some((s, c, en)) => {
                let id = jobs.len();
                let j = new_job(id, &s, &c, en, JobSource::Cron);
                jobs.push(j);
            },
            None => {
                let l = string_of(&ls[i]);
                preamble.push(l);
                assert(string_views(preamble@) =~= before.push(l@));
            },
        }
        i += 1;
    }
    assert(lv.take(ls.len() as int) =~= lv);
    assert(ids_in_order(jobs@)) by {
        assert forall|i: int| 0 <= i < jobs@.len() implies (#[trigger] jobs@[i]).id == i by {
            assert(fresh_job(jobs@[i], i as usize, crontab_entries(content@).0[i].0, crontab_entries(content@).0[i].1, crontab_entries(content@).0[i].2));
        }
    }
    (jobs, preamble)
}


fn entry_line_of(j: &CronJob) -> (r: Vec<char>)
    ensures
        r@ == entry_line(job_entry(*j)),
{
    let mut r: Vec<char> = Vec::new();
    if !j.enabled {
        r.push('#');
        r.push(' ');
    }
    let s = chars_of(j.schedule.as_str());
    let c = chars_of(j.command.as_str());
    append_vec(&mut r, &s);
    r.push(' ');
    append_vec(&mut r, &c);
    if j.enabled {
        assert(r@ =~= s@ + seq![' '] + c@);
    } else {
        assert(r@ =~= seq!['#', ' '] + s@ + seq![' '] + c@);
    }
    r
}

/// The jobs that live in the crontab, in order.
pub open spec fn cron_jobs(js: Seq<CronJob>) -> Seq<CronJob> {
    js.filter(|j: CronJob| j.source is Cron)
}

/// The crontab jobs of `js`, or all of `js`.
pub open spec fn chosen_jobs(js: Seq<CronJob>, only_cron: bool) -> Seq<CronJob> {
    if only_cron {
        cron_jobs(js)
    } else {
        js
    }
}

/// Crontab text for the preamble and the jobs (only those from the crontab, when
/// `only_cron` holds).
pub fn crontab_text_filtered(preamble: &[String], jobs: &[CronJob], only_cron: bool) -> (r: String)
    ensures
        r@ == crontab_text_spec(string_views(preamble@), job_entries(chosen_jobs(jobs@, only_cron))),
{
    let ghost pre = string_views(preamble@);
    let ghost pred = |j: CronJob| j.source is Cron;
    let mut ls: Vec<Vec<char>> = Vec::new();
    let mut i: usize = 0;
    assert(pre.take(0) =~= Seq::<Seq<char>>::empty());
    while i < preamble.len()
        invariant
            0 <= i <= preamble.len(),
            pre == string_views(preamble@),
            views(ls@) == pre.take(i as int),
        decreases preamble.len() - i,
    {
        let l = chars_of(preamble[i].as_str());
        let ghost before = views(ls@);
        ls.push(l);
        assert(views(ls@) =~= before.push(l@));
        assert(pre.take(i + 1) =~= pre.take(i as int).push(pre[i as int]));
        i += 1;
    }
    assert(pre.take(preamble.len() as int) =~= pre);
    let mut k: usize = 0;
    proof {
        reveal(Seq::filter);
        assert(jobs@.take(0) =~= Seq::<CronJob>::empty());
        assert(entry_lines(job_entries(chosen_jobs(jobs@.take(0), only_cron))) =~= Seq::<Seq<char>>::empty());
    }
    while k < jobs.len()
        invariant
            0 <= k <= jobs.len(),
            pre == string_views(preamble@),
            pred == (|j: CronJob| j.source is Cron),
            views(ls@) == pre + entry_lines(job_entries(chosen_jobs(jobs@.take(k as int), only_cron))),
        decreases jobs.len() - k,
    {
        proof {
            jobs@.take(k as int).lemma_filter_push(jobs@[k as int], pred);
            assert(jobs@.take(k + 1) =~= jobs@.take(k as int).push(jobs@[k as int]));
        }
        let keep = match jobs[k].source {
            JobSource::Cron => true,
            _ => !only_cron,
        };
        if keep {
            let l = entry_line_of(&jobs[k]);
            let ghost before = views(ls@);
            ls.push(l);
            assert(views(ls@) =~= before.push(l@));
            let ghost prev = chosen_jobs(jobs@.take(k as int), only_cron);
            assert(chosen_jobs(jobs@.take(k + 1), only_cron) == prev.push(jobs@[k as int]));
            assert(entry_lines(job_entries(prev.push(jobs@[k as int]))) =~= entry_lines(job_entries(prev)).push(entry_line(job_entry(jobs@[k as int]))));
        } else {
            assert(chosen_jobs(jobs@.take(k + 1), only_cron) == chosen_jobs(jobs@.take(k as int), only_cron));
        }
        k += 1;
    }
    assert(jobs@.take(jobs.len() as int) =~= jobs@);
    let mut nl: Vec<char> = Vec::new();
    nl.push('\n');
    assert(nl@ =~= seq!['\n']);
    let mut text = join_chars(&ls, &nl);
    text.push('\n');
    string_of(&text)
}

/// Crontab text for the preamble and the jobs: the preamble lines as they stand,
/// then `schedule command` for each job, behind `# ` when it is disabled, each line
/// ended by a newline.
pub fn crontab_text(preamble: &[String], jobs: &[CronJob]) -> (r: String)
    ensures
        r@ == crontab_text_spec(string_views(preamble@), job_entries(jobs@)),
{
    crontab_text_filtered(preamble, jobs, false)
}

/// A schedule that crontab text keeps as it is: five cron schedule fields joined by
/// single spaces.
pub open spec fn schedule_ok(s: Seq<char>) -> bool {
    let f = split_by(s, ws_pred());
    &&& schedule_fields(f)
    &&& join_with(f, seq![' ']) == s
}

/// A job that crontab text keeps as it is: a schedule as above, and a command that
/// is not empty, holds no newline and does not end in whitespace.
pub open spec fn entry_ok(e: Entry) -> bool {
    &&& schedule_ok(e.0)
    &&& e.1.len() > 0
    &&& !is_ws(e.1.last())
    &&& !e.1.contains('\n')
}

/// A preamble line that crontab text keeps as it is: no newline, no final carriage
/// return, and not a job line.
pub open spec fn preamble_line_ok(l: Seq<char>) -> bool {
    &&& !l.contains('\n')
    &&& !(l.len() > 0 && l.last() == '\r')
    &&& line_entry(l) is None
}

proof fn lemma_no_newline_in_fields(f: Seq<Seq<char>>)
    requires
        forall|i: int, k: int| 0 <= i < f.len() && 0 <= k < f[i].len() ==> !is_ws(#[trigger] f[i][k]),
    ensures
        forall|i: int| 0 <= i < f.len() ==> !(#[trigger] f[i]).contains('\n'),
{
    assert forall|i: int| 0 <= i < f.len() implies !(#[trigger] f[i]).contains('\n') by {
        if f[i].contains('\n') {
            let k = choose|k: int| 0 <= k < f[i].len() && f[i][k] == '\n';
            assert(!is_ws(f[i][k]));
        }
    }
}

proof fn lemma_join_two(a: Seq<char>, b: Seq<char>, sep: char)
    requires
        !a.contains('\n'),
        !b.contains('\n'),
        sep != '\n',
    ensures
        !(a + seq![sep] + b).contains('\n'),
{
    let ab = seq![a, b];
    assert(ab.drop_last() =~= seq![a]);
    assert(join_with(seq![a], seq![sep]) == a);
    assert(join_with(ab, seq![sep]) == join_with(ab.drop_last(), seq![sep]) + seq![sep] + ab.last());
    assert(join_with(ab, seq![sep]) =~= a + seq![sep] + b);
    assert(!seq![sep].contains('\n')) by {
        if seq![sep].contains('\n') {
            let k = choose|k: int| 0 <= k < 1 && seq![sep][k] == '\n';
        }
    }
    assert forall|i: int| 0 <= i < 2 implies !(#[trigger] ab[i]).contains('\n') by {}
    lemma_join_free(ab, seq![sep], '\n');
}

proof fn lemma_entry_core(s: Seq<char>, c: Seq<char>)
    requires
        schedule_ok(s),
        c.len() > 0,
        !is_ws(c.last()),
        !c.contains('\n'),
    ensures
        ({
            let x = s + seq![' '] + c;
            &&& cron_fields(x) == Some((s, c))
            &&& x.len() > 0
            &&& x[0] == s[0]
            &&& x[0] != '#'
            &&& !is_ws(x[0])
            &&& x.last() == c.last()
            &&& trim(x) == x
            &&& !x.contains('\n')
        }),
{
    let f = split_by(s, ws_pred());
    lemma_split_parts_free(s, ws_pred());
    assert forall|i: int, k: int| 0 <= i < f.len() && 0 <= k < f[i].len() implies !is_ws(
        #[trigger] f[i][k],
    ) by {
        assert(!ws_pred()(f[i][k]));
    }
    lemma_splitn_join(f, c);
    let x = s + seq![' '] + c;
    assert(join_with(f, seq![' ']) + seq![' '] + c == x);
    assert(f.push(c).take(5) =~= f);
    lemma_join_front(f, seq![' ']);
    assert(x[0] == f[0][0]);
    assert(is_field_char(f[0][0]));
    lemma_trim_unchanged(x);
    lemma_no_newline_in_fields(f);
    assert(!seq![' '].contains('\n')) by {
        if seq![' '].contains('\n') {
            let k = choose|k: int| 0 <= k < 1 && seq![' '][k] == '\n';
        }
    }
    lemma_join_free(f, seq![' '], '\n');
    lemma_join_two(s, c, ' ');
}

proof fn lemma_entry_line(e: Entry)
    requires
        entry_ok(e),
    ensures
        line_entry(entry_line(e)) == Some(e),
        !entry_line(e).contains('\n'),
        !(entry_line(e).len() > 0 && entry_line(e).last() == '\r'),
{
    let (s, c, en) = e;
    lemma_entry_core(s, c);
    let x = s + seq![' '] + c;
    if en {
        assert(entry_line(e) == x);
    } else {
        let y = seq!['#', ' '] + s + seq![' '] + c;
        assert(entry_line(e) == y);
        assert(y =~= seq!['#'] + seq![' '] + x);
        assert(y.last() == c.last());
        lemma_trim_unchanged(y);
        assert(y.drop_first() =~= seq![' '] + x);
        lemma_trim_space(x);
        assert(!seq!['#'].contains('\n')) by {
            if seq!['#'].contains('\n') {
                let k = choose|k: int| 0 <= k < 1 && seq!['#'][k] == '\n';
            }
        }
        lemma_join_two(seq!['#'], x, ' ');
    }
}

proof fn lemma_parse_preamble(pre: Seq<Seq<char>>)
    requires
        forall|i: int| 0 <= i < pre.len() ==> line_entry(#[trigger] pre[i]) is None,
    ensures
        parse_lines(pre) == (Seq::<Entry>::empty(), pre),
    decreases pre.len(),
{
    if pre.len() > 0 {
        let init = pre.drop_last();
        assert forall|i: int| 0 <= i < init.len() implies line_entry(#[trigger] init[i]) is None by {
            assert(init[i] == pre[i]);
        }
        lemma_parse_preamble(init);
        assert(line_entry(pre[pre.len() - 1]) is None);
        assert(init.push(pre.last()) =~= pre);
    }
}

proof fn lemma_parse_text_lines(pre: Seq<Seq<char>>, es: Seq<Entry>)
    requires
        forall|i: int| 0 <= i < pre.len() ==> line_entry(#[trigger] pre[i]) is None,
        forall|i: int| 0 <= i < es.len() ==> entry_ok(#[trigger] es[i]),
    ensures
        parse_lines(pre + entry_lines(es)) == (es, pre),
    decreases es.len(),
{
    if es.len() == 0 {
        assert(pre + entry_lines(es) =~= pre);
        lemma_parse_preamble(pre);
    } else {
        let init = es.drop_last();
        assert forall|i: int| 0 <= i < init.len() implies entry_ok(#[trigger] init[i]) by {
            assert(init[i] == es[i]);
        }
        lemma_parse_text_lines(pre, init);
        let all = pre + entry_lines(es);
        assert(all.drop_last() =~= pre + entry_lines(init));
        assert(all.last() == entry_line(es.last()));
        assert(entry_ok(es[es.len() - 1]));
        lemma_entry_line(es.last());
        assert(init.push(es.last()) =~= es);
    }
}

/// Writing a preamble and jobs as crontab text and reading that text back gives
/// the same jobs, in the same order and state, and the same preamble, for every
/// preamble line and every job that crontab text can hold as it is (see
/// `preamble_line_ok` and `entry_ok`); the text must not be empty of both.
pub proof fn lemma_crontab_round_trip(preamble: Seq<Seq<char>>, es: Seq<Entry>)
    requires
        preamble.len() + es.len() > 0,
        forall|i: int| 0 <= i < preamble.len() ==> preamble_line_ok(#[trigger] preamble[i]),
        forall|i: int| 0 <= i < es.len() ==> entry_ok(#[trigger] es[i]),
    ensures
        crontab_entries(crontab_text_spec(preamble, es)) == (es, preamble),
{
    let ls = preamble + entry_lines(es);
    assert forall|i: int| 0 <= i < ls.len() implies !(#[trigger] ls[i]).contains('\n') && !(
    ls[i].len() > 0 && ls[i].last() == '\r') by {
        if i >= preamble.len() {
            assert(entry_ok(es[i - preamble.len()]));
            lemma_entry_line(es[i - preamble.len()]);
        } else {
            assert(preamble_line_ok(preamble[i]));
        }
    }
    lemma_lines_of_joined(ls);
    assert forall|i: int| 0 <= i < preamble.len() implies line_entry(#[trigger] preamble[i]) is None by {
        assert(preamble_line_ok(preamble[i]));
    }
    lemma_parse_text_lines(preamble, es);
}


/// A job line behind `#` is the same job, disabled, whatever follows the `#`:
/// `#0 3 * * * cmd` as well as `# 0 3 * * * cmd`.
pub proof fn lemma_commented_job(x: Seq<char>)
    ensures
        line_entry(x) matches Some((s, c, true)) ==> line_entry(seq!['#'] + x) == Some((s, c, false)),
{
    if line_entry(x) matches Some((s, c, true)) {
        assert(!is_ws('#'));
        lemma_trim_behind('#', x);
        let t = trim(seq!['#'] + x);
        assert(t[0] == '#');
        assert(t.drop_first() =~= crate::text::trim_end(x));
        lemma_trim_of_trim_end(x);
    }
}

/// The lines of crontab text: the preamble lines as they stand, then one line per
/// job, `schedule command` when it is enabled and `# schedule command` when it is
/// disabled, in order.
pub proof fn lemma_crontab_lines(preamble: Seq<Seq<char>>, es: Seq<Entry>)
    requires
        preamble.len() + es.len() > 0,
        forall|i: int| 0 <= i < preamble.len() ==> preamble_line_ok(#[trigger] preamble[i]),
        forall|i: int| 0 <= i < es.len() ==> entry_ok(#[trigger] es[i]),
    ensures
        lines(crontab_text_spec(preamble, es)).len() == preamble.len() + es.len(),
        forall|i: int| 0 <= i < preamble.len() ==> #[trigger] lines(crontab_text_spec(preamble, es))[i] == preamble[i],
        forall|i: int|
            0 <= i < es.len() ==> #[trigger] lines(crontab_text_spec(preamble, es))[preamble.len() + i] == if es[i].2 {
                es[i].0 + " "@ + es[i].1
            } else {
                "# "@ + es[i].0 + " "@ + es[i].1
            },
{
    reveal_strlit(" ");
    reveal_strlit("# ");
    let ls = preamble + entry_lines(es);
    assert forall|i: int| 0 <= i < ls.len() implies !(#[trigger] ls[i]).contains('\n') && !(
    ls[i].len() > 0 && ls[i].last() == '\r') by {
        if i >= preamble.len() {
            assert(entry_ok(es[i - preamble.len()]));
            lemma_entry_line(es[i - preamble.len()]);
        } else {
            assert(preamble_line_ok(preamble[i]));
        }
    }
    lemma_lines_of_joined(ls);
    assert forall|i: int| 0 <= i < es.len() implies #[trigger] lines(crontab_text_spec(preamble, es))[preamble.len() + i]
        == if es[i].2 {
        es[i].0 + " "@ + es[i].1
    } else {
        "# "@ + es[i].0 + " "@ + es[i].1
    } by {
        assert(ls[preamble.len() + i] == entry_line(es[i]));
        assert(" "@ =~= seq![' ']);
        assert("# "@ =~= seq!['#', ' ']);
    }
}

pub open spec fn not_job_pred() -> spec_fn(Seq<char>) -> bool {
    |l: Seq<char>| line_entry(l) is None
}

/// Reading crontab lines loses none: the preamble is exactly the lines that are not
/// jobs, in order, and every other line gives one job.
pub proof fn lemma_parse_keeps_every_line(ls: Seq<Seq<char>>)
    ensures
        parse_lines(ls).1 == ls.filter(not_job_pred()),
        parse_lines(ls).0.len() + parse_lines(ls).1.len() == ls.len(),
    decreases ls.len(),
{
    reveal(Seq::filter);
    if ls.len() > 0 {
        lemma_parse_keeps_every_line(ls.drop_last());
        ls.drop_last().lemma_filter_push(ls.last(), not_job_pred());
        assert(ls.drop_last().push(ls.last()) =~= ls);
    }
}


/// The fields of a trimmed job line form a schedule and a command that crontab
/// text keeps as they are.
proof fn lemma_fields_ok(t: Seq<char>)
    requires
        t.len() > 0,
        !is_ws(t[0]),
        !is_ws(t.last()),
        !t.contains('\n'),
        cron_fields(t) is Some,
    ensures
        ({
            let (s, c) = cron_fields(t).unwrap();
            &&& schedule_ok(s)
            &&& c.len() > 0
            &&& !is_ws(c.last())
            &&& !c.contains('\n')
            &&& s[0] == t[0]
        }),
{
    lemma_splitn_shape(t, 6);
    let p = splitn_ws(t, 6);
    let f = p.take(5);
    let (s, c) = cron_fields(t).unwrap();
    assert(p.len() == 6);
    assert(s == join_with(f, seq![' ']));
    assert(c == p[5]);
    assert forall|i: int, k: int| 0 <= i < f.len() && 0 <= k < f[i].len() implies !ws_pred()(
        #[trigger] f[i][k],
    ) by {
        assert(f[i] == p[i]);
    }
    assert(ws_pred()(' '));
    lemma_split_join_pred(f, ' ', ws_pred());
    assert(f[0] == p[0]);
    assert(p[0].len() > 0) by {
        if p[0].len() == 0 {
            assert(is_ws(t[0]));
        }
    }
    assert(c.len() > 0) by {
        if c.len() == 0 {
            assert(is_ws(t[t.len() - 1]));
        }
    }
    assert(c.last() == t.last()) by {
        assert(t.skip(t.len() - c.len())[c.len() - 1] == t[t.len() - 1]);
    }
    lemma_join_front(f, seq![' ']);
    assert(s[0] == f[0][0]);
    assert(t.take(p[0].len() as int)[0] == t[0]);
}

/// Every job that a line without newline holds is one that crontab text keeps as
/// it is.
proof fn lemma_line_entry_ok(l: Seq<char>)
    requires
        !l.contains('\n'),
        line_entry(l) is Some,
    ensures
        entry_ok(line_entry(l).unwrap()),
{
    let t = trim(l);
    lemma_trim_props(l);
    if t[0] == '#' {
        let r = t.drop_first();
        assert(!r.contains('\n')) by {
            if r.contains('\n') {
                let k = choose|k: int| 0 <= k < r.len() && r[k] == '\n';
                assert(t[k + 1] == '\n');
            }
        }
        let u = trim(r);
        lemma_trim_props(r);
        lemma_splitn_shape(u, 6);
        assert(u.len() > 0) by {
            if u.len() == 0 {
                assert(splitn_ws(u, 6).len() == 1);
            }
        }
        lemma_fields_ok(u);
    } else {
        lemma_fields_ok(t);
    }
}

proof fn lemma_parse_lines_ok(ls: Seq<Seq<char>>)
    requires
        forall|i: int| 0 <= i < ls.len() ==> !(#[trigger] ls[i]).contains('\n'),
        forall|i: int|
            0 <= i < ls.len() && line_entry(#[trigger] ls[i]) is None ==> !(ls[i].len() > 0
                && ls[i].last() == '\r'),
    ensures
        forall|i: int| 0 <= i < parse_lines(ls).0.len() ==> entry_ok(#[trigger] parse_lines(ls).0[i]),
        forall|i: int| 0 <= i < parse_lines(ls).1.len() ==> preamble_line_ok(#[trigger] parse_lines(ls).1[i]),
    decreases ls.len(),
{
    if ls.len() > 0 {
        let init = ls.drop_last();
        assert forall|i: int| 0 <= i < init.len() implies !(#[trigger] init[i]).contains('\n') by {
            assert(init[i] == ls[i]);
        }
        assert forall|i: int|
            0 <= i < init.len() && line_entry(#[trigger] init[i]) is None implies !(init[i].len() > 0
                && init[i].last() == '\r') by {
            assert(init[i] == ls[i]);
        }
        lemma_parse_lines_ok(init);
        let l = ls.last();
        assert(!l.contains('\n')) by {
            assert(ls[ls.len() - 1] == l);
        }
        let (es0, pre0) = parse_lines(init);
        match line_entry(l) {
            Some(e) => {
                lemma_line_entry_ok(l);
                assert(parse_lines(ls) == (es0.push(e), pre0));
                assert forall|i: int| 0 <= i < es0.len() + 1 implies entry_ok(#[trigger] es0.push(e)[i]) by {
                    if i < es0.len() {
                        assert(es0.push(e)[i] == es0[i]);
                    }
                }
            },
            None => {
                assert(line_entry(ls[ls.len() - 1]) is None);
                assert(parse_lines(ls) == (es0, pre0.push(l)));
                assert forall|i: int| 0 <= i < pre0.len() + 1 implies preamble_line_ok(#[trigger] pre0.push(l)[i]) by {
                    if i < pre0.len() {
                        assert(pre0.push(l)[i] == pre0[i]);
                    }
                }
            },
        }
    }
}

/// Saving the jobs and the preamble read from crontab text, unchanged, and reading
/// the saved text back gives the same jobs, in the same order and state, and the
/// same preamble. It holds for every text that is not empty and whose non-job
/// lines do not end in a carriage return.
pub proof fn lemma_save_unchanged_rereads(content: Seq<char>)
    requires
        content.len() > 0,
        forall|i: int|
            0 <= i < lines(content).len() && line_entry(#[trigger] lines(content)[i]) is None ==> !(
            lines(content)[i].len() > 0 && lines(content)[i].last() == '\r'),
    ensures
        ({
            let (es, pre) = crontab_entries(content);
            crontab_entries(crontab_text_spec(pre, es)) == (es, pre)
        }),
{
    let ls = lines(content);
    lemma_lines_nonempty(content);
    lemma_lines_free(content);
    lemma_parse_lines_ok(ls);
    lemma_parse_keeps_every_line(ls);
    let (es, pre) = parse_lines(ls);
    lemma_crontab_round_trip(pre, es);
}

} // verus!
