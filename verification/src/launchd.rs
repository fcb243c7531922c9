//! Launchd agents: reading a job out of an agent's property list, and writing the
//! property list of a new agent.

use vstd::prelude::*;
use crate::models::{ids_in_order, CronJob, JobSource};
use crate::text::{
    append_vec, chars_of, decimal, decimal_of, eq_chars, in_set, join_chars, join_with,
    lemma_split_by_len, replace_all, replace_chars, split_by, split_on, string_of, sub_chars,
    views, words, words_of, contains_sub,
};
use crate::util::{title_case_chars, title_case_spec};

verus! {

broadcast use vstd::seq_lib::group_seq_properties;

/// A property-list value, holding what the launchd logic reads of it.
#[derive(Debug)]
pub enum PlistValue {
    String(String),
    /// An integer, signed or unsigned, by its value.
    Integer(i128),
    Array(Vec<PlistValue>),
    /// The entries of a dictionary, in order; keys do not repeat.
    Dictionary(Vec<(String, PlistValue)>),
    /// Any other kind of value (boolean, data, date, real, uid).
    Other,
}

/// What a launchd agent's file gives the job list: its path, its parsed property
/// list, and whether `launchctl` reports its label as loaded.
#[derive(Debug)]
pub struct AgentFile {
    pub path: String,
    pub plist: PlistValue,
    pub loaded: bool,
}

#[verifier::external_type_specification]
#[verifier::external_body]
pub struct ExPlistValue(plist::Value);

/// What `plist::Value::from_reader` reads from `bytes` (a property list in XML,
/// binary or ASCII form), as the library's `PlistValue`; `None` when it reports an
/// error. A function of the bytes alone; its grammar is the plist crate's and is
/// not written out here.
pub uninterp spec fn plist_of(bytes: Seq<u8>) -> Option<PlistValue>;

/// `plist::Value::from_reader` over the bytes, its value converted one for one
/// into a `PlistValue` (`plist_to_value`); `None` on the crate's error.
#[verifier::external_body]
fn parse_plist(bytes: &[u8]) -> (r: Option<PlistValue>)
    ensures
        r == plist_of(bytes@),
{
    match plist::Value::from_reader(std::io::Cursor::new(bytes)) {
        Ok(v) => Some(plist_to_value(&v)),
        Err(_) => None,
    }
}

/// The one-for-one conversion of a `plist::Value` used by `parse_plist`: strings,
/// integers (by their signed or else unsigned value), arrays and dictionaries (in
/// the crate's order) carried over; every other kind becomes `Other`. Only
/// `parse_plist` calls it, and what it gives is covered by `plist_of`.
#[verifier::external_body]
fn plist_to_value(v: &plist::Value) -> PlistValue {
    match v {
        plist::Value::String(s) => PlistValue::String(s.clone()),
        plist::Value::Integer(i) => match i.as_signed() {
            Some(n) => PlistValue::Integer(n as i128),
            None => PlistValue::Integer(i.as_unsigned().unwrap_or_default() as i128),
        },
        plist::Value::Array(a) => PlistValue::Array(a.iter().map(plist_to_value).collect()),
        plist::Value::Dictionary(d) => PlistValue::Dictionary(d.iter().map(|(k, x)| (k.clone(), plist_to_value(x))).collect()),
        _ => PlistValue::Other,
    }
}

/// The value of the first entry with key `key` (`Dictionary::get`).
pub open spec fn dict_get(entries: Seq<(String, PlistValue)>, key: Seq<char>) -> Option<PlistValue>
    decreases entries.len(),
{
    if entries.len() == 0 {
        None
    } else if entries[0].0@ == key {
        Some(entries[0].1)
    } else {
        dict_get(entries.drop_first(), key)
    }
}

/// The text of a string value (`Value::as_string`).
pub open spec fn as_text(v: Option<PlistValue>) -> Option<Seq<char>> {
    match v {
        Some(PlistValue::String(s)) => Some(s@),
        _ => None,
    }
}

/// The value of an integer that fits in `i64` (`Value::as_signed_integer`).
pub open spec fn as_signed(v: Option<PlistValue>) -> Option<i64> {
    match v {
        Some(PlistValue::Integer(n)) => if i64::MIN <= n <= i64::MAX {
            Some(n as i64)
        } else {
            None
        },
        _ => None,
    }
}

/// A calendar field: the integer under `key` in decimal, or `*`.
pub open spec fn calendar_field(d: Seq<(String, PlistValue)>, key: Seq<char>) -> Seq<char> {
    match as_signed(dict_get(d, key)) {
        Some(n) => decimal(n as int),
        None => "*"@,
    }
}

/// A `StartCalendarInterval` dictionary as a cron expression: minute, hour, day,
/// month and weekday, `*` for each that is missing.
pub open spec fn calendar_cron(d: Seq<(String, PlistValue)>) -> Seq<char> {
    calendar_field(d, "Minute"@) + seq![' '] + calendar_field(d, "Hour"@) + seq![' ']
        + calendar_field(d, "Day"@) + seq![' '] + calendar_field(d, "Month"@) + seq![' ']
        + calendar_field(d, "Weekday"@)
}

/// The schedule of an agent: its `StartCalendarInterval` dictionary, or the first
/// dictionary of a `StartCalendarInterval` array, as a cron expression; else
/// `* * * * *`.
pub open spec fn agent_schedule(d: Seq<(String, PlistValue)>) -> Seq<char> {
    match dict_get(d, "StartCalendarInterval"@) {
        Some(PlistValue::Dictionary(e)) => calendar_cron(e@),
        Some(PlistValue::Array(a)) => if a@.len() > 0 && a@[0] is Dictionary {
            match a@[0] {
                PlistValue::Dictionary(e) => calendar_cron(e@),
                _ => "* * * * *"@,
            }
        } else {
            "* * * * *"@
        },
        _ => "* * * * *"@,
    }
}

pub open spec fn is_text_pred() -> spec_fn(PlistValue) -> bool {
    |v: PlistValue| v is String
}

pub open spec fn text_of(v: PlistValue) -> Seq<char> {
    match v {
        PlistValue::String(s) => s@,
        _ => Seq::<char>::empty(),
    }
}

pub open spec fn texts(vs: Seq<PlistValue>) -> Seq<Seq<char>> {
    vs.filter(is_text_pred()).map_values(|v: PlistValue| text_of(v))
}

/// The command of an agent: the string items of its `ProgramArguments` array joined
/// with spaces; else its `Program` string; else its label.
pub open spec fn agent_command(d: Seq<(String, PlistValue)>, label: Seq<char>) -> Seq<char> {
    match dict_get(d, "ProgramArguments"@) {
        Some(PlistValue::Array(a)) => join_with(texts(a@), seq![' ']),
        _ => match as_text(dict_get(d, "Program"@)) {
            Some(p) => p,
            None => label,
        },
    }
}

/// The label of an agent, when its property list is a dictionary with a string
/// `Label`.
pub open spec fn agent_label_spec(v: PlistValue) -> Option<Seq<char>> {
    match v {
        PlistValue::Dictionary(d) => as_text(dict_get(d@, "Label"@)),
        _ => None,
    }
}

/// The display name of an agent: the last `.`-separated part of its label, `-`
/// replaced by `_`, title-cased.
pub open spec fn agent_name(label: Seq<char>) -> Seq<char> {
    title_case_spec(replace_all(split_by(label, in_set(seq!['.'])).last(), "-"@, "_"@))
}

pub open spec fn has_label_pred() -> spec_fn(AgentFile) -> bool {
    |a: AgentFile| agent_label_spec(a.plist) is Some
}

/// `j` is the job of agent `a`, numbered `id`.
pub open spec fn agent_job(j: CronJob, a: AgentFile, id: int) -> bool {
    match a.plist {
        PlistValue::Dictionary(d) => {
            let label = agent_label_spec(a.plist).unwrap();
            &&& j.id == id
            &&& j.name@ == agent_name(label)
            &&& j.schedule@ == agent_schedule(d@)
            &&& j.command@ == agent_command(d@, label)
            &&& j.enabled == a.loaded
            &&& j.source matches JobSource::Launchd { label: l, plist_path: p }
            &&& l@ == label
            &&& p@ == a.path@
            &&& j.last_run is None
            &&& j.last_status is None
            &&& j.last_duration is None
            &&& j.logs@.len() == 0
        },
        _ => false,
    }
}

fn dict_lookup<'a>(entries: &'a Vec<(String, PlistValue)>, key: &str) -> (r: Option<&'a PlistValue>)
    ensures
        match r {
            Some(v) => dict_get(entries@, key@) == Some(*v),
            None => dict_get(entries@, key@) is None,
        },
{
    let k = chars_of(key);
    let mut i: usize = 0;
    while i < entries.len()
        invariant
            0 <= i <= entries.len(),
            k@ == key@,
            dict_get(entries@, key@) == dict_get(entries@.skip(i as int), key@),
        decreases entries.len() - i,
    {
        let name = chars_of(entries[i].0.as_str());
        assert(entries@.skip(i as int).drop_first() =~= entries@.skip(i + 1));
        if eq_chars(&name, &k) {
            return Some(&entries[i].1);
        }
        i += 1;
    }
    None
}


fn calendar_field_of(d: &Vec<(String, PlistValue)>, key: &str) -> (r: Vec<char>)
    ensures
        r@ == calendar_field(d@, key@),
{
    match dict_lookup(d, key) {
        Some(PlistValue::Integer(n)) => {
            if -9223372036854775808i128 <= *n && *n <= 9223372036854775807i128 {
                decimal_of(*n as i64)
            } else {
                chars_of("*")
            }
        },
        _ => chars_of("*"),
    }
}

fn calendar_cron_of(d: &Vec<(String, PlistValue)>) -> (r: Vec<char>)
    ensures
        r@ == calendar_cron(d@),
{
    let mut r = calendar_field_of(d, "Minute");
    r.push(' ');
    let h = calendar_field_of(d, "Hour");
    append_vec(&mut r, &h);
    r.push(' ');
    let day = calendar_field_of(d, "Day");
    append_vec(&mut r, &day);
    r.push(' ');
    let m = calendar_field_of(d, "Month");
    append_vec(&mut r, &m);
    r.push(' ');
    let w = calendar_field_of(d, "Weekday");
    append_vec(&mut r, &w);
    assert(r@ =~= calendar_cron(d@));
    r
}

/// A `StartCalendarInterval` dictionary as a cron expression.
pub fn sci_dict_to_cron(d: &Vec<(String, PlistValue)>) -> (r: String)
    ensures
        r@ == calendar_cron(d@),
{
    let c = calendar_cron_of(d);
    string_of(&c)
}

fn agent_schedule_of(d: &Vec<(String, PlistValue)>) -> (r: Vec<char>)
    ensures
        r@ == agent_schedule(d@),
{
    match dict_lookup(d, "StartCalendarInterval") {
        Some(PlistValue::Dictionary(e)) => calendar_cron_of(e),
        Some(PlistValue::Array(a)) => {
            if a.len() > 0 {
                match &a[0] {
                    PlistValue::Dictionary(e) => calendar_cron_of(e),
                    _ => chars_of("* * * * *"),
                }
            } else {
                chars_of("* * * * *")
            }
        },
        _ => chars_of("* * * * *"),
    }
}

/// The schedule of an agent's property-list dictionary, as a cron expression.
pub fn parse_start_calendar_interval(dict: &Vec<(String, PlistValue)>) -> (r: String)
    ensures
        r@ == agent_schedule(dict@),
{
    let c = agent_schedule_of(dict);
    string_of(&c)
}

fn texts_of(a: &Vec<PlistValue>) -> (r: Vec<Vec<char>>)
    ensures
        views(r@) == texts(a@),
{
    let mut r: Vec<Vec<char>> = Vec::new();
    let mut i: usize = 0;
    proof {
        reveal(Seq::filter);
        assert(a@.take(0) =~= Seq::<PlistValue>::empty());
        assert(views(r@) =~= texts(a@.take(0)));
    }
    while i < a.len()
        invariant
            0 <= i <= a.len(),
            views(r@) == texts(a@.take(i as int)),
        decreases a.len() - i,
    {
        proof {
            a@.take(i as int).lemma_filter_push(a@[i as int], is_text_pred());
            assert(a@.take(i + 1) =~= a@.take(i as int).push(a@[i as int]));
        }
        let ghost before = views(r@);
        match &a[i] {
            PlistValue::String(s) => {
                let t = chars_of(s.as_str());
                r.push(t);
                assert(views(r@) =~= before.push(t@));
                assert(texts(a@.take(i + 1)) =~= texts(a@.take(i as int)).push(text_of(a@[i as int])));
            },
            _ => {},
        }
        i += 1;
    }
    assert(a@.take(a.len() as int) =~= a@);
    r
}

fn agent_command_of(d: &Vec<(String, PlistValue)>, label: &Vec<char>) -> (r: Vec<char>)
    ensures
        r@ == agent_command(d@, label@),
{
    match dict_lookup(d, "ProgramArguments") {
        Some(PlistValue::Array(a)) => {
            let ts = texts_of(a);
            let mut space: Vec<char> = Vec::new();
            space.push(' ');
            assert(space@ =~= seq![' ']);
            join_chars(&ts, &space)
        },
        _ => match dict_lookup(d, "Program") {
            Some(PlistValue::String(p)) => chars_of(p.as_str()),
            _ => sub_chars(label, 0, label.len()),
        },
    }
}

fn agent_name_of(label: &Vec<char>) -> (r: Vec<char>)
    ensures
        r@ == agent_name(label@),
{
    let mut dot: Vec<char> = Vec::new();
    dot.push('.');
    assert(dot@ =~= seq!['.']);
    let parts = split_on(label, &dot);
    proof {
        lemma_split_by_len(label@, in_set(seq!['.']));
    }
    let last = parts.len() - 1;
    let dash = chars_of("-");
    let underscore = chars_of("_");
    proof {
        reveal_strlit("-");
    }
    let replaced = replace_chars(&parts[last], &dash, &underscore);
    title_case_chars(&replaced)
}

/// The label of an agent, when its property list is a dictionary with a string
/// `Label`.
pub fn agent_label(v: &PlistValue) -> (r: Option<String>)
    ensures
        match r {
            Some(l) => agent_label_spec(*v) == Some(l@),
            None => agent_label_spec(*v) is None,
        },
{
    match v {
        PlistValue::Dictionary(d) => match dict_lookup(d, "Label") {
            Some(PlistValue::String(l)) => Some(l.clone()),
            _ => None,
        },
        _ => None,
    }
}

/// The property list that an agent file's bytes hold, with the agent's label (see
/// `agent_label`); `None` when the bytes are not a property list.
pub fn read_agent_plist(bytes: &[u8]) -> (r: Option<(PlistValue, Option<String>)>)
    ensures
        match r {
            None => plist_of(bytes@) is None,
            Some((v, l)) => {
                &&& plist_of(bytes@) == Some(v)
                &&& match l {
                    Some(s) => agent_label_spec(v) == Some(s@),
                    None => agent_label_spec(v) is None,
                }
            },
        },
{
    match parse_plist(bytes) {
        None => None,
        Some(v) => {
            let l = agent_label(&v);
            Some((v, l))
        },
    }
}

fn agent_job_of(a: &AgentFile, id: usize) -> (r: Option<CronJob>)
    ensures
        match r {
            Some(j) => agent_label_spec(a.plist) is Some && agent_job(j, *a, id as int),
            None => agent_label_spec(a.plist) is None,
        },
{
    match &a.plist {
        PlistValue::Dictionary(d) => match dict_lookup(d, "Label") {
            Some(PlistValue::String(l)) => {
                let label = chars_of(l.as_str());
                let command = agent_command_of(d, &label);
                let schedule = agent_schedule_of(d);
                let name = agent_name_of(&label);
                Some(
                    CronJob {
                        id,
                        name: string_of(&name),
                        schedule: string_of(&schedule),
                        command: string_of(&command),
                        enabled: a.loaded,
                        source: JobSource::Launchd { label: l.clone(), plist_path: a.path.clone() },
                        last_run: None,
                        last_status: None,
                        last_duration: None,
                        logs: Vec::new(),
                    },
                )
            },
            _ => None,
        },
        _ => None,
    }
}

/// The jobs of launchd agents, numbered from `id_offset` in order: one for each
/// agent whose property list is a dictionary with a string `Label`; the others are
/// left out.
pub fn parse_launchd_agents(id_offset: usize, agents: &Vec<AgentFile>) -> (jobs: Vec<CronJob>)
    requires
        id_offset + agents@.filter(has_label_pred()).len() <= usize::MAX,
    ensures
        ({
            let kept = agents@.filter(has_label_pred());
            &&& jobs.len() == kept.len()
            &&& forall|i: int| 0 <= i < kept.len() ==> agent_job(#[trigger] jobs@[i], kept[i], id_offset + i)
        }),
{
    let mut jobs: Vec<CronJob> = Vec::new();
    let mut i: usize = 0;
    proof {
        reveal(Seq::filter);
        assert(agents@.take(0) =~= Seq::<AgentFile>::empty());
    }
    while i < agents.len()
        invariant
            0 <= i <= agents.len(),
            id_offset + agents@.filter(has_label_pred()).len() <= usize::MAX,
            ({
                let kept = agents@.take(i as int).filter(has_label_pred());
                &&& jobs.len() == kept.len()
                &&& forall|k: int| 0 <= k < kept.len() ==> agent_job(#[trigger] jobs@[k], kept[k], id_offset + k)
            }),
        decreases agents.len() - i,
    {
        proof {
            agents@.take(i as int).lemma_filter_push(agents@[i as int], has_label_pred());
            assert(agents@.take(i + 1) =~= agents@.take(i as int).push(agents@[i as int]));
            agents@.take(i as int).lemma_filter_len(has_label_pred());
            assert(agents@ =~= agents@.take(i as int) + agents@.skip(i as int));
            Seq::filter_distributes_over_add(agents@.take(i as int), agents@.skip(i as int), has_label_pred());
        }
        let id = id_offset + jobs.len();
        match agent_job_of(&agents[i], id) {
            Some(j) => {
                jobs.push(j);
            },
            None => {},
        }
        i += 1;
    }
    assert(agents@.take(agents.len() as int) =~= agents@);
    jobs
}


/// The jobs read from the crontab followed by the jobs of launchd agents, the
/// agents numbered on from the crontab jobs.
pub fn with_agent_jobs(cron: Vec<CronJob>, agents: &Vec<AgentFile>) -> (r: Vec<CronJob>)
    requires
        cron.len() + agents@.filter(has_label_pred()).len() <= usize::MAX,
    ensures
        ({
            let kept = agents@.filter(has_label_pred());
            &&& r.len() == cron.len() + kept.len()
            &&& r@.take(cron.len() as int) == cron@
            &&& forall|i: int|
                0 <= i < kept.len() ==> agent_job(#[trigger] r@[cron.len() + i], kept[i], cron.len() + i)
            &&& ids_in_order(cron@) ==> ids_in_order(r@)
        }),
{
    let n = cron.len();
    let mut more = parse_launchd_agents(n, agents);
    let ghost m = more@;
    let mut r = cron;
    r.append(&mut more);
    proof {
        let kept = agents@.filter(has_label_pred());
        assert(r@ =~= cron@ + m);
        assert(r@.take(n as int) =~= cron@);
        assert forall|i: int| 0 <= i < kept.len() implies agent_job(#[trigger] r@[n + i], kept[i], n + i) by {
            assert(r@[n + i] == m[i]);
        }
        if ids_in_order(cron@) {
            assert forall|i: int| 0 <= i < r@.len() implies (#[trigger] r@[i]).id == i by {
                if i >= n {
                    assert(r@[i] == m[i - n]);
                    assert(agent_job(m[i - n], kept[i - n], n + (i - n)));
                } else {
                    assert(r@[i] == cron@[i]);
                }
            }
        }
    }
    r
}

/// Whether a file name has the extension `plist` (`Path::extension`): it ends in
/// `.plist` after at least one more character.
pub open spec fn has_plist_ext(name: Seq<char>) -> bool {
    name.len() > 6 && name.skip(name.len() - 6) == ".plist"@
}

/// Whether a file name has the extension `plist`.
pub fn has_plist_extension(name: &str) -> (r: bool)
    ensures
        r == has_plist_ext(name@),
{
    let n = chars_of(name);
    let ext = chars_of(".plist");
    proof {
        reveal_strlit(".plist");
    }
    if n.len() <= 6 {
        return false;
    }
    let tail = sub_chars(&n, n.len() - 6, n.len());
    assert(tail@ =~= n@.skip(n.len() - 6));
    eq_chars(&tail, &ext)
}

pub const PLIST_HEAD: &'static str = "<?xml version=\"1.0\" encoding=\"UTF-8\"?>\n<!DOCTYPE plist PUBLIC \"-//Apple//DTD PLIST 1.0//EN\" \"http://www.apple.com/DTDs/PropertyList-1.0.dtd\">\n<plist version=\"1.0\">\n<dict>\n    <key>Label</key>\n    <string>";

pub const PLIST_AFTER_LABEL: &'static str = "</string>\n    <key>ProgramArguments</key>\n    <array>\n        <string>/bin/sh</string>\n        <string>-c</string>\n        <string>";

pub const PLIST_AFTER_COMMAND: &'static str = "</string>\n    </array>\n    ";

pub const PLIST_TAIL: &'static str = "\n</dict>\n</plist>";

pub const CALENDAR_OPEN: &'static str = "<key>StartCalendarInterval</key>\n    <dict>\n";

pub const CALENDAR_CLOSE: &'static str = "    </dict>";

/// The calendar line of one schedule field, empty when the field is `*`.
pub open spec fn calendar_line(key: Seq<char>, value: Seq<char>) -> Seq<char> {
    if value == "*"@ {
        Seq::<char>::empty()
    } else {
        "        <key>"@ + key + "</key><integer>"@ + value + "</integer>\n"@
    }
}

/// The `StartCalendarInterval` entry for the five fields of a schedule.
pub open spec fn calendar_xml(p: Seq<Seq<char>>) -> Seq<char> {
    CALENDAR_OPEN@ + calendar_line("Minute"@, p[0]) + calendar_line("Hour"@, p[1]) + calendar_line(
        "Day"@,
        p[2],
    ) + calendar_line("Month"@, p[3]) + calendar_line("Weekday"@, p[4]) + CALENDAR_CLOSE@
}

/// The property list of a launchd agent that runs `command` with `/bin/sh -c` on
/// `schedule`; an error when the schedule does not have five whitespace-separated
/// fields.
pub open spec fn launchd_plist_spec(label: Seq<char>, command: Seq<char>, schedule: Seq<char>) -> Result<Seq<char>, Seq<char>> {
    let p = words(schedule);
    if p.len() != 5 {
        Err("Invalid schedule: "@ + schedule)
    } else {
        Ok(PLIST_HEAD@ + label + PLIST_AFTER_LABEL@ + command + PLIST_AFTER_COMMAND@ + calendar_xml(p) + PLIST_TAIL@)
    }
}

/// A text holds every text that stands in it between two others.
proof fn lemma_contains_middle(p: Seq<char>, t: Seq<char>, q: Seq<char>)
    ensures
        contains_sub(p + t + q, t),
{
    let x = p + t + q;
    assert(x.subrange(p.len() as int, (p.len() + t.len()) as int) =~= t);
}

/// A text holds the key-and-integer part of each calendar line that stands in it.
proof fn lemma_line_in(pre: Seq<char>, key: Seq<char>, v: Seq<char>, post: Seq<char>)
    requires
        v != "*"@,
    ensures
        contains_sub(pre + calendar_line(key, v) + post, "<key>"@ + key + "</key><integer>"@ + v + "</integer>"@),
{
    reveal_strlit("        <key>");
    reveal_strlit("        ");
    reveal_strlit("<key>");
    reveal_strlit("</integer>\n");
    reveal_strlit("</integer>");
    reveal_strlit("\n");
    let t = "<key>"@ + key + "</key><integer>"@ + v + "</integer>"@;
    assert(pre + calendar_line(key, v) + post =~= (pre + "        "@) + t + ("\n"@ + post));
    lemma_contains_middle(pre + "        "@, t, "\n"@ + post);
}

/// launchd's calendar keys as written: `<key>` and the key's name, then `</key><integer>`.
proof fn lemma_key_texts()
    ensures
        "<key>Minute</key><integer>"@ == "<key>"@ + "Minute"@ + "</key><integer>"@,
        "<key>Hour</key><integer>"@ == "<key>"@ + "Hour"@ + "</key><integer>"@,
        "<key>Day</key><integer>"@ == "<key>"@ + "Day"@ + "</key><integer>"@,
        "<key>Month</key><integer>"@ == "<key>"@ + "Month"@ + "</key><integer>"@,
        "<key>Weekday</key><integer>"@ == "<key>"@ + "Weekday"@ + "</key><integer>"@,
{
    reveal_strlit("<key>Minute</key><integer>");
    reveal_strlit("<key>Hour</key><integer>");
    reveal_strlit("<key>Day</key><integer>");
    reveal_strlit("<key>Month</key><integer>");
    reveal_strlit("<key>Weekday</key><integer>");
    reveal_strlit("<key>");
    reveal_strlit("</key><integer>");
    reveal_strlit("Minute");
    reveal_strlit("Hour");
    reveal_strlit("Day");
    reveal_strlit("Month");
    reveal_strlit("Weekday");
    assert("<key>Minute</key><integer>"@ =~= "<key>"@ + "Minute"@ + "</key><integer>"@);
    assert("<key>Hour</key><integer>"@ =~= "<key>"@ + "Hour"@ + "</key><integer>"@);
    assert("<key>Day</key><integer>"@ =~= "<key>"@ + "Day"@ + "</key><integer>"@);
    assert("<key>Month</key><integer>"@ =~= "<key>"@ + "Month"@ + "</key><integer>"@);
    assert("<key>Weekday</key><integer>"@ =~= "<key>"@ + "Weekday"@ + "</key><integer>"@);
}

/// Each schedule field that is not `*` goes into the agent's calendar under
/// launchd's key for it: minute under `Minute`, hour under `Hour`, day of month
/// under `Day`, month under `Month`, day of week under `Weekday`, as an integer
/// element; a schedule of five fields always gives a property list.
pub proof fn lemma_plist_calendar_keys(label: Seq<char>, command: Seq<char>, schedule: Seq<char>)
    requires
        words(schedule).len() == 5,
    ensures
        match launchd_plist_spec(label, command, schedule) {
            Ok(x) => {
                let p = words(schedule);
                &&& p[0] != "*"@ ==> contains_sub(x, "<key>Minute</key><integer>"@ + p[0] + "</integer>"@)
                &&& p[1] != "*"@ ==> contains_sub(x, "<key>Hour</key><integer>"@ + p[1] + "</integer>"@)
                &&& p[2] != "*"@ ==> contains_sub(x, "<key>Day</key><integer>"@ + p[2] + "</integer>"@)
                &&& p[3] != "*"@ ==> contains_sub(x, "<key>Month</key><integer>"@ + p[3] + "</integer>"@)
                &&& p[4] != "*"@ ==> contains_sub(x, "<key>Weekday</key><integer>"@ + p[4] + "</integer>"@)
            },
            Err(_) => false,
        },
{
    let p = words(schedule);
    let x = launchd_plist_spec(label, command, schedule)->Ok_0;
    let head = PLIST_HEAD@ + label + PLIST_AFTER_LABEL@ + command + PLIST_AFTER_COMMAND@ + CALENDAR_OPEN@;
    let l0 = calendar_line("Minute"@, p[0]);
    let l1 = calendar_line("Hour"@, p[1]);
    let l2 = calendar_line("Day"@, p[2]);
    let l3 = calendar_line("Month"@, p[3]);
    let l4 = calendar_line("Weekday"@, p[4]);
    let close = CALENDAR_CLOSE@ + PLIST_TAIL@;
    lemma_key_texts();
    assert(x =~= head + l0 + l1 + l2 + l3 + l4 + close);
    if p[0] != "*"@ {
        assert(x =~= head + l0 + (l1 + l2 + l3 + l4 + close));
        lemma_line_in(head, "Minute"@, p[0], l1 + l2 + l3 + l4 + close);
    }
    if p[1] != "*"@ {
        assert(x =~= (head + l0) + l1 + (l2 + l3 + l4 + close));
        lemma_line_in(head + l0, "Hour"@, p[1], l2 + l3 + l4 + close);
    }
    if p[2] != "*"@ {
        assert(x =~= (head + l0 + l1) + l2 + (l3 + l4 + close));
        lemma_line_in(head + l0 + l1, "Day"@, p[2], l3 + l4 + close);
    }
    if p[3] != "*"@ {
        assert(x =~= (head + l0 + l1 + l2) + l3 + (l4 + close));
        lemma_line_in(head + l0 + l1 + l2, "Month"@, p[3], l4 + close);
    }
    if p[4] != "*"@ {
        assert(x =~= (head + l0 + l1 + l2 + l3) + l4 + close);
        lemma_line_in(head + l0 + l1 + l2 + l3, "Weekday"@, p[4], close);
    }
}

/// What an agent's property list gives its job: the schedule from
/// `StartCalendarInterval` (a dictionary, or the first dictionary of an array;
/// every minute, `* * * * *`, without one); the command from `ProgramArguments`
/// (its strings joined with single spaces), else from `Program`, else the label.
pub proof fn lemma_agent_reading(d: Seq<(String, PlistValue)>, label: Seq<char>)
    ensures
        dict_get(d, "StartCalendarInterval"@) is None ==> agent_schedule(d) == "* * * * *"@,
        dict_get(d, "StartCalendarInterval"@) matches Some(PlistValue::Dictionary(e)) ==> agent_schedule(d)
            == calendar_cron(e@),
        dict_get(d, "StartCalendarInterval"@) matches Some(PlistValue::Array(a)) ==> (a@.len() > 0 && a@[0] is Dictionary
            ==> agent_schedule(d) == calendar_cron(a@[0]->Dictionary_0@)),
        dict_get(d, "ProgramArguments"@) matches Some(PlistValue::Array(a)) ==> agent_command(d, label)
            == join_with(texts(a@), " "@),
        dict_get(d, "ProgramArguments"@) is None ==> (dict_get(d, "Program"@) matches Some(PlistValue::String(p))
            ==> agent_command(d, label) == p@),
        dict_get(d, "ProgramArguments"@) is None && dict_get(d, "Program"@) is None ==> agent_command(d, label)
            == label,
{
    reveal_strlit(" ");
    assert(" "@ =~= seq![' ']);
}

/// Reading an agent's calendar takes each field from launchd's key for it: the day
/// of month is the integer under `Day` in decimal (and `*` without one), between
/// the minute and hour before it and the month and weekday after it.
pub proof fn lemma_calendar_day_field(d: Seq<(String, PlistValue)>)
    ensures
        ({
            let day = match dict_get(d, "Day"@) {
                Some(PlistValue::Integer(n)) => if i64::MIN <= n <= i64::MAX {
                    decimal(n as int)
                } else {
                    "*"@
                },
                _ => "*"@,
            };
            calendar_cron(d) == calendar_field(d, "Minute"@) + " "@ + calendar_field(d, "Hour"@) + " "@ + day
                + " "@ + calendar_field(d, "Month"@) + " "@ + calendar_field(d, "Weekday"@)
        }),
        forall|key: Seq<char>|
            #![trigger calendar_field(d, key)]
            dict_get(d, key) matches Some(PlistValue::Integer(n)) ==> (i64::MIN <= n <= i64::MAX
                ==> calendar_field(d, key) == decimal(n as int)),
        forall|key: Seq<char>| !(dict_get(d, key) matches Some(PlistValue::Integer(_))) ==> #[trigger] calendar_field(d, key) == "*"@,
{
    reveal_strlit(" ");
    assert(calendar_cron(d) =~= calendar_field(d, "Minute"@) + " "@ + calendar_field(d, "Hour"@) + " "@
        + calendar_field(d, "Day"@) + " "@ + calendar_field(d, "Month"@) + " "@ + calendar_field(d, "Weekday"@));
}

fn calendar_line_of(key: &str, value: &Vec<char>) -> (r: Vec<char>)
    ensures
        r@ == calendar_line(key@, value@),
{
    let star = chars_of("*");
    if eq_chars(value, &star) {
        return Vec::new();
    }
    let mut r = chars_of("        <key>");
    let k = chars_of(key);
    append_vec(&mut r, &k);
    let mid = chars_of("</key><integer>");
    append_vec(&mut r, &mid);
    append_vec(&mut r, value);
    let close = chars_of("</integer>\n");
    append_vec(&mut r, &close);
    r
}

/// The property list of a launchd agent for `label`, `command` and `schedule`.
pub fn launchd_plist_xml(label: &str, command: &str, schedule: &str) -> (r: Result<String, String>)
    ensures
        match (r, launchd_plist_spec(label@, command@, schedule@)) {
            (Ok(x), Ok(y)) => x@ == y,
            (Err(x), Err(y)) => x@ == y,
            _ => false,
        },
{
    let sc = chars_of(schedule);
    let p = words_of(&sc);
    if p.len() != 5 {
        let mut e = chars_of("Invalid schedule: ");
        append_vec(&mut e, &sc);
        return Err(string_of(&e));
    }
    let mut x = chars_of(PLIST_HEAD);
    let l = chars_of(label);
    append_vec(&mut x, &l);
    let a = chars_of(PLIST_AFTER_LABEL);
    append_vec(&mut x, &a);
    let c = chars_of(command);
    append_vec(&mut x, &c);
    let b = chars_of(PLIST_AFTER_COMMAND);
    append_vec(&mut x, &b);
    let open = chars_of(CALENDAR_OPEN);
    append_vec(&mut x, &open);
    let l0 = calendar_line_of("Minute", &p[0]);
    append_vec(&mut x, &l0);
    let l1 = calendar_line_of("Hour", &p[1]);
    append_vec(&mut x, &l1);
    let l2 = calendar_line_of("Day", &p[2]);
    append_vec(&mut x, &l2);
    let l3 = calendar_line_of("Month", &p[3]);
    append_vec(&mut x, &l3);
    let l4 = calendar_line_of("Weekday", &p[4]);
    append_vec(&mut x, &l4);
    let close = chars_of(CALENDAR_CLOSE);
    append_vec(&mut x, &close);
    let tail = chars_of(PLIST_TAIL);
    append_vec(&mut x, &tail);
    assert(x@ =~= PLIST_HEAD@ + label@ + PLIST_AFTER_LABEL@ + command@ + PLIST_AFTER_COMMAND@
        + calendar_xml(views(p@)) + PLIST_TAIL@);
    Ok(string_of(&x))
}

} // verus!
