//! Naming jobs after their commands, and describing schedules and times in words.

use vstd::prelude::*;
use crate::models::{ids_in_order, now_timestamp, CronJob, JobSource, RunLog, RunStatus, Timestamp};
use crate::text::{
    append_vec, chars_of, contains_chars, contains_sub, eq_chars, in_set,
    join_chars, join_with, lemma_split_by_len, nat_digits, nat_digits_of, pad2, pad2_chars, replace_all, replace_chars,
    split_by, split_on, string_of, sub_chars, views, words, words_of, lemma_split_parts_keep,
    lemma_remove_keep, lemma_filter_keep, ws_pred, is_ws, lemma_split_join_pred, digit_char,
    lemma_split_append_plain, lemma_split_push_sep,
};

verus! {

broadcast use vstd::seq_lib::group_seq_properties;

/// What `char::to_uppercase` gives for `c`, as a string.
pub uninterp spec fn char_to_upper(c: char) -> Seq<char>;

/// What `str::to_lowercase` gives for `s`.
pub uninterp spec fn str_to_lower(s: Seq<char>) -> Seq<char>;

/// Whether `c` is an ASCII character.
pub open spec fn is_ascii_char(c: char) -> bool {
    (c as u32) < 128
}

/// Whether every character of `s` is ASCII.
pub open spec fn all_ascii(s: Seq<char>) -> bool {
    forall|k: int| 0 <= k < s.len() ==> is_ascii_char(#[trigger] s[k])
}

pub open spec fn ascii_pred() -> spec_fn(char) -> bool {
    |c: char| is_ascii_char(c)
}

/// The ASCII upper case of `c`: `a` to `z` become `A` to `Z`; other characters stay.
pub open spec fn ascii_upper(c: char) -> char {
    if 'a' <= c && c <= 'z' {
        ((c as u32) - 32) as char
    } else {
        c
    }
}

/// The ASCII lower case of `c`: `A` to `Z` become `a` to `z`; other characters stay.
pub open spec fn ascii_lower(c: char) -> char {
    if 'A' <= c && c <= 'Z' {
        ((c as u32) + 32) as char
    } else {
        c
    }
}

/// `char::to_uppercase`: the Unicode upper-case mapping of `c`, collected into a
/// string. The mapping is a fixed table of the Unicode version that std was built
/// with, so it is named here and not written out; on an ASCII character it is the
/// ASCII upper case (`char::to_ascii_uppercase`), one character.
#[verifier::external_body]
fn uppercase(c: char) -> (r: String)
    ensures
        r@ == char_to_upper(c),
        is_ascii_char(c) ==> r@ == seq![ascii_upper(c)],
{
    c.to_uppercase().to_string()
}

/// `str::to_lowercase`: the Unicode lower-case mapping of `s` (final sigma included).
/// Like the upper-case mapping it is a fixed table, named here and not written out;
/// on an ASCII text it maps each character to its ASCII lower case
/// (`str::to_ascii_lowercase`).
#[verifier::external_body]
fn lowercase(s: &str) -> (r: String)
    ensures
        r@ == str_to_lower(s@),
        all_ascii(s@) ==> r@ == s@.map_values(|c: char| ascii_lower(c)),
{
    s.to_lowercase()
}

/// A word with its first character upper-cased and the rest lower-cased.
pub open spec fn title_word(w: Seq<char>) -> Seq<char> {
    if w.len() == 0 {
        Seq::<char>::empty()
    } else {
        char_to_upper(w[0]) + str_to_lower(w.drop_first())
    }
}

pub open spec fn title_words(ws: Seq<Seq<char>>) -> Seq<Seq<char>> {
    ws.map_values(|w: Seq<char>| title_word(w))
}

/// `s` cut at `'_'` and `'-'`, each piece title-cased, joined with single spaces.
pub open spec fn title_case_spec(s: Seq<char>) -> Seq<char> {
    join_with(title_words(split_by(s, in_set(seq!['_', '-']))), seq![' '])
}

/// An ASCII word title-cased: its first character in ASCII upper case, the rest in
/// ASCII lower case.
pub open spec fn ascii_title_word(w: Seq<char>) -> Seq<char> {
    if w.len() == 0 {
        Seq::<char>::empty()
    } else {
        seq![ascii_upper(w[0])] + w.drop_first().map_values(|c: char| ascii_lower(c))
    }
}

/// `title_case_spec` for ASCII text, with the ASCII case mappings written out.
pub open spec fn ascii_title_case(s: Seq<char>) -> Seq<char> {
    join_with(
        split_by(s, in_set(seq!['_', '-'])).map_values(|w: Seq<char>| ascii_title_word(w)),
        seq![' '],
    )
}

/// A title piece once its case is mapped: nothing for an empty piece, else the
/// upper-cased first character followed by the lower-cased rest.
pub open spec fn mapped_piece(p: Option<(String, String)>) -> Seq<char> {
    match p {
        None => Seq::<char>::empty(),
        Some((first, rest)) => first@ + rest@,
    }
}

pub open spec fn mapped_pieces(ps: Seq<Option<(String, String)>>) -> Seq<Seq<char>> {
    ps.map_values(|p: Option<(String, String)>| mapped_piece(p))
}

/// Title case works piece by piece: a text without `_` or `-` becomes its first
/// character upper-cased followed by the rest lower-cased, and two such pieces
/// joined by `_` or `-` become the two titles joined by one space.
pub proof fn lemma_title_case_pieces(a: Seq<char>, b: Seq<char>, sep: char)
    requires
        sep == '_' || sep == '-',
        !a.contains('_') && !a.contains('-'),
        !b.contains('_') && !b.contains('-'),
    ensures
        title_case_spec(a) == if a.len() == 0 {
            Seq::<char>::empty()
        } else {
            char_to_upper(a[0]) + str_to_lower(a.drop_first())
        },
        title_case_spec(a + seq![sep] + b) == (if a.len() == 0 {
            Seq::<char>::empty()
        } else {
            char_to_upper(a[0]) + str_to_lower(a.drop_first())
        }) + " "@ + (if b.len() == 0 {
            Seq::<char>::empty()
        } else {
            char_to_upper(b[0]) + str_to_lower(b.drop_first())
        }),
{
    reveal_strlit(" ");
    let pred = in_set(seq!['_', '-']);
    assert(pred(sep));
    assert forall|k: int| 0 <= k < a.len() implies !pred(#[trigger] a[k]) by {
        if pred(a[k]) {
            assert(seq!['_', '-'].contains(a[k]));
            if a[k] == '_' {
                assert(a.contains('_'));
            } else {
                assert(a.contains('-'));
            }
        }
    }
    assert forall|k: int| 0 <= k < b.len() implies !pred(#[trigger] b[k]) by {
        if pred(b[k]) {
            assert(seq!['_', '-'].contains(b[k]));
            if b[k] == '_' {
                assert(b.contains('_'));
            } else {
                assert(b.contains('-'));
            }
        }
    }
    let one = seq![a];
    assert forall|i: int, k: int| 0 <= i < one.len() && 0 <= k < one[i].len() implies !pred(#[trigger] one[i][k]) by {
        assert(one[i] == a);
    }
    lemma_split_join_pred(one, sep, pred);
    assert(join_with(one, seq![sep]) == a);
    assert(title_words(one) =~= seq![title_word(a)]);
    let two = seq![a, b];
    assert forall|i: int, k: int| 0 <= i < two.len() && 0 <= k < two[i].len() implies !pred(#[trigger] two[i][k]) by {
        if i == 0 {
            assert(two[i] == a);
        } else {
            assert(two[i] == b);
        }
    }
    lemma_split_join_pred(two, sep, pred);
    assert(two.drop_last() =~= one);
    assert(join_with(two, seq![sep]) == a + seq![sep] + b);
    assert(title_words(two) =~= seq![title_word(a), title_word(b)]);
    let tt = seq![title_word(a), title_word(b)];
    assert(tt.drop_last() =~= seq![title_word(a)]);
    assert(join_with(seq![title_word(a)], seq![' ']) == title_word(a));
    assert(join_with(tt, seq![' ']) == join_with(tt.drop_last(), seq![' ']) + seq![' '] + tt.last());
    assert(" "@ =~= seq![' ']);
    assert(title_case_spec(a + seq![sep] + b) == join_with(tt, seq![' ']));
}

/// The title of case-mapped pieces: each piece's mapped first character followed by
/// its mapped rest (nothing for an empty piece), joined with single spaces.
pub fn title_from_mapped(ps: &Vec<Option<(String, String)>>) -> (r: String)
    ensures
        r@ == join_with(mapped_pieces(ps@), seq![' ']),
{
    let mut words: Vec<Vec<char>> = Vec::new();
    let mut i: usize = 0;
    while i < ps.len()
        invariant
            0 <= i <= ps.len(),
            views(words@) == mapped_pieces(ps@.take(i as int)),
        decreases ps.len() - i,
    {
        let w = match &ps[i] {
            None => Vec::new(),
            Some((first, rest)) => {
                let mut w = chars_of(first.as_str());
                let r = chars_of(rest.as_str());
                append_vec(&mut w, &r);
                w
            },
        };
        let ghost before = views(words@);
        words.push(w);
        assert(views(words@) =~= before.push(w@));
        assert(mapped_pieces(ps@.take(i + 1)) =~= mapped_pieces(ps@.take(i as int)).push(mapped_piece(ps@[i as int])));
        i += 1;
    }
    assert(ps@.take(ps.len() as int) =~= ps@);
    let mut space: Vec<char> = Vec::new();
    space.push(' ');
    assert(space@ =~= seq![' ']);
    let t = join_chars(&words, &space);
    string_of(&t)
}

/// The pieces of `s` between `'_'` and `'-'`, title-cased and joined with spaces.
pub fn title_case_chars(s: &Vec<char>) -> (r: Vec<char>)
    ensures
        r@ == title_case_spec(s@),
        all_ascii(s@) ==> r@ == ascii_title_case(s@),
{
    let mut seps: Vec<char> = Vec::new();
    seps.push('_');
    seps.push('-');
    assert(seps@ =~= seq!['_', '-']);
    let parts = split_on(s, &seps);
    let ghost pv = views(parts@);
    let mut mapped: Vec<Option<(String, String)>> = Vec::new();
    let mut i: usize = 0;
    while i < parts.len()
        invariant
            0 <= i <= parts.len(),
            pv == views(parts@),
            mapped.len() == i,
            forall|k: int| 0 <= k < i ==> mapped_piece(#[trigger] mapped@[k]) == title_word(pv[k]),
            forall|k: int| 0 <= k < i && all_ascii(pv[k]) ==> mapped_piece(#[trigger] mapped@[k]) == ascii_title_word(pv[k]),
        decreases parts.len() - i,
    {
        let w = &parts[i];
        if w.len() == 0 {
            mapped.push(None);
        } else {
            let first = uppercase(w[0]);
            let rest = sub_chars(w, 1, w.len());
            assert(rest@ =~= w@.drop_first());
            let rest_str = string_of(&rest);
            let lower = lowercase(rest_str.as_str());
            mapped.push(Some((first, lower)));
        }
        i += 1;
    }
    assert(mapped_pieces(mapped@) =~= title_words(pv));
    proof {
        if all_ascii(s@) {
            lemma_split_parts_keep(s@, in_set(seq!['_', '-']), ascii_pred());
            assert forall|k: int| 0 <= k < pv.len() implies all_ascii(#[trigger] pv[k]) by {
                assert forall|m: int| 0 <= m < pv[k].len() implies is_ascii_char(#[trigger] pv[k][m]) by {
                    assert(ascii_pred()(pv[k][m]));
                }
            }
            assert(mapped_pieces(mapped@) =~= pv.map_values(|w: Seq<char>| ascii_title_word(w)));
        }
    }
    let t = title_from_mapped(&mapped);
    chars_of(t.as_str())
}

/// Each piece of `s` between `'_'` and `'-'` with its first character upper-cased and
/// the rest lower-cased, the pieces joined with single spaces.
pub fn title_case(s: &str) -> (r: String)
    ensures
        r@ == title_case_spec(s@),
        all_ascii(s@) ==> r@ == ascii_title_case(s@),
{
    let cs = chars_of(s);
    let t = title_case_chars(&cs);
    string_of(&t)
}


/// Whether a command word names a script: it holds `.py`, `.sh` or `.rb`.
pub open spec fn has_script_ext(w: Seq<char>) -> bool {
    contains_sub(w, ".py"@) || contains_sub(w, ".sh"@) || contains_sub(w, ".rb"@)
}

pub open spec fn script_pred() -> spec_fn(Seq<char>) -> bool {
    |w: Seq<char>| has_script_ext(w)
}

/// The part of `w` after its last `'/'` (all of `w` when it has none).
pub open spec fn after_last_slash(w: Seq<char>) -> Seq<char> {
    split_by(w, in_set(seq!['/'])).last()
}

/// `n` with every `.py`, then every `.sh`, then every `.rb` taken out.
pub open spec fn strip_script_exts(n: Seq<char>) -> Seq<char> {
    replace_all(
        replace_all(replace_all(n, ".py"@, Seq::<char>::empty()), ".sh"@, Seq::<char>::empty()),
        ".rb"@,
        Seq::<char>::empty(),
    )
}

/// The display name of a command: the first word that names a script, cut to its
/// file name, without the script extensions and title-cased; else the file name of
/// the first word; else `Unknown`.
pub open spec fn extract_name_spec(command: Seq<char>) -> Seq<char> {
    let ws = words(command);
    let scripts = ws.filter(script_pred());
    if scripts.len() > 0 {
        title_case_spec(strip_script_exts(after_last_slash(scripts[0])))
    } else if ws.len() > 0 {
        after_last_slash(ws[0])
    } else {
        "Unknown"@
    }
}

fn after_last_slash_of(w: &Vec<char>) -> (r: Vec<char>)
    ensures
        r@ == after_last_slash(w@),
{
    let mut slash: Vec<char> = Vec::new();
    slash.push('/');
    assert(slash@ =~= seq!['/']);
    let segs = split_on(w, &slash);
    proof {
        lemma_split_by_len(w@, in_set(seq!['/']));
    }
    let last = segs.len() - 1;
    let r = sub_chars(&segs[last], 0, segs[last].len());
    assert(r@ =~= views(segs@)[last as int]);
    r
}

proof fn lemma_filter_singleton(x: Seq<char>, p: spec_fn(Seq<char>) -> bool)
    requires
        p(x),
    ensures
        seq![x].filter(p) == seq![x],
{
    Seq::<Seq<char>>::empty().lemma_filter_push(x, p);
    assert(Seq::<Seq<char>>::empty().push(x) =~= seq![x]);
    reveal(Seq::filter);
    assert(Seq::<Seq<char>>::empty().filter(p) =~= Seq::<Seq<char>>::empty());
}

/// `extract_name_spec` for ASCII text, with the ASCII case mappings written out.
pub open spec fn extract_name_ascii(command: Seq<char>) -> Seq<char> {
    let scripts = words(command).filter(script_pred());
    if scripts.len() > 0 {
        ascii_title_case(strip_script_exts(after_last_slash(scripts[0])))
    } else {
        extract_name_spec(command)
    }
}

pub open spec fn all_ascii_pred() -> spec_fn(Seq<char>) -> bool {
    |w: Seq<char>| all_ascii(w)
}

/// The words of an ASCII text are ASCII.
proof fn lemma_words_ascii(s: Seq<char>)
    requires
        all_ascii(s),
    ensures
        forall|i: int| 0 <= i < words(s).len() ==> all_ascii(#[trigger] words(s)[i]),
{
    let parts = split_by(s, ws_pred());
    assert forall|k: int| 0 <= k < s.len() implies ascii_pred()(#[trigger] s[k]) by {}
    lemma_split_parts_keep(s, ws_pred(), ascii_pred());
    assert forall|i: int| 0 <= i < parts.len() implies all_ascii_pred()(#[trigger] parts[i]) by {
        assert forall|m: int| 0 <= m < parts[i].len() implies is_ascii_char(#[trigger] parts[i][m]) by {
            assert(ascii_pred()(parts[i][m]));
        }
    }
    lemma_filter_keep(parts, |w: Seq<char>| w.len() > 0, all_ascii_pred());
    assert forall|i: int| 0 <= i < words(s).len() implies all_ascii(#[trigger] words(s)[i]) by {
        assert(all_ascii_pred()(words(s)[i]));
    }
}

/// What a script word leaves once cut to its file name and stripped of script
/// extensions is ASCII when the word is.
proof fn lemma_script_name_ascii(w: Seq<char>)
    requires
        all_ascii(w),
    ensures
        all_ascii(strip_script_exts(after_last_slash(w))),
{
    let slash = in_set(seq!['/']);
    assert forall|k: int| 0 <= k < w.len() implies ascii_pred()(#[trigger] w[k]) by {}
    lemma_split_parts_keep(w, slash, ascii_pred());
    lemma_split_by_len(w, slash);
    let n = after_last_slash(w);
    let last = split_by(w, slash).len() - 1;
    assert forall|k: int| 0 <= k < n.len() implies ascii_pred()(#[trigger] n[k]) by {
        assert(n[k] == split_by(w, slash)[last][k]);
    }
    let e = Seq::<char>::empty();
    lemma_remove_keep(n, ".py"@, ascii_pred());
    let a = replace_all(n, ".py"@, e);
    lemma_remove_keep(a, ".sh"@, ascii_pred());
    let b = replace_all(a, ".sh"@, e);
    lemma_remove_keep(b, ".rb"@, ascii_pred());
    let c = replace_all(b, ".rb"@, e);
    assert forall|k: int| 0 <= k < c.len() implies is_ascii_char(#[trigger] c[k]) by {
        assert(ascii_pred()(c[k]));
    }
}

/// A job is named after the first word of its command, in command order, that
/// holds `.py`, `.sh` or `.rb`: that word's file name with those extensions taken
/// out, title-cased. With no such word it is the file name of the first word, and
/// `Unknown` when the command has no words.
pub proof fn lemma_extract_name_first_script(c: Seq<char>, i: int)
    requires
        0 <= i < words(c).len(),
        contains_sub(words(c)[i], ".py"@) || contains_sub(words(c)[i], ".sh"@) || contains_sub(
            words(c)[i],
            ".rb"@,
        ),
        forall|j: int|
            0 <= j < i ==> !contains_sub(#[trigger] words(c)[j], ".py"@) && !contains_sub(
                words(c)[j],
                ".sh"@,
            ) && !contains_sub(words(c)[j], ".rb"@),
    ensures
        extract_name_spec(c) == title_case_spec(
            replace_all(
                replace_all(
                    replace_all(split_by(words(c)[i], in_set(seq!['/'])).last(), ".py"@, Seq::<char>::empty()),
                    ".sh"@,
                    Seq::<char>::empty(),
                ),
                ".rb"@,
                Seq::<char>::empty(),
            ),
        ),
{
    let ws = words(c);
    let front = ws.take(i);
    let rest = ws.skip(i + 1);
    assert(ws =~= front + (seq![ws[i]] + rest));
    Seq::filter_distributes_over_add(front, seq![ws[i]] + rest, script_pred());
    Seq::filter_distributes_over_add(seq![ws[i]], rest, script_pred());
    lemma_filter_singleton(ws[i], script_pred());
    lemma_filter_none(front, script_pred());
    assert(ws.filter(script_pred()) =~= seq![ws[i]] + rest.filter(script_pred()));
}

proof fn lemma_replace_free_front(n: Seq<char>, rest: Seq<char>, pat: Seq<char>)
    requires
        pat.len() > 0,
        !n.contains(pat[0]),
    ensures
        replace_all(n + rest, pat, Seq::<char>::empty()) == n + replace_all(rest, pat, Seq::<char>::empty()),
    decreases n.len(),
{
    let x = n + rest;
    if n.len() > 0 {
        assert(x[0] == n[0]);
        if x.len() >= pat.len() {
            assert(x.take(pat.len() as int)[0] == n[0]);
            assert(n[0] != pat[0]);
            assert(x.take(pat.len() as int) != pat);
        }
        let m = n.drop_first();
        assert(!m.contains(pat[0])) by {
            if m.contains(pat[0]) {
                let k = choose|k: int| 0 <= k < m.len() && m[k] == pat[0];
                assert(n[k + 1] == pat[0]);
            }
        }
        lemma_replace_free_front(m, rest, pat);
        assert(x.drop_first() =~= m + rest);
        assert(seq![n[0]] + (m + replace_all(rest, pat, Seq::<char>::empty())) =~= n + replace_all(
            rest,
            pat,
            Seq::<char>::empty(),
        ));
    } else {
        assert(x =~= rest);
    }
}

/// A command that is one script path is named after the script's file name,
/// without its extension, title-cased: `dir/name.py`, `dir/name.sh` and
/// `dir/name.rb` are all named `title_case(name)`.
pub proof fn lemma_extract_name_script_path(dir: Seq<char>, name: Seq<char>, ext: Seq<char>)
    requires
        ext == ".py"@ || ext == ".sh"@ || ext == ".rb"@,
        name.len() > 0,
        !name.contains('.') && !name.contains('/'),
        forall|k: int| 0 <= k < name.len() ==> !is_ws(#[trigger] name[k]),
        forall|k: int| 0 <= k < dir.len() ==> !is_ws(#[trigger] dir[k]),
    ensures
        extract_name_spec(dir + "/"@ + name + ext) == title_case_spec(name),
{
    reveal_strlit(".py");
    reveal_strlit(".sh");
    reveal_strlit(".rb");
    reveal_strlit("/");
    let w = dir + "/"@ + name + ext;
    assert(w.len() > 0);
    assert forall|k: int| 0 <= k < w.len() implies !ws_pred()(#[trigger] w[k]) by {
        if k < dir.len() {
            assert(w[k] == dir[k]);
        } else if k == dir.len() {
            assert(w[k] == '/');
        } else if k < dir.len() + 1 + name.len() {
            assert(w[k] == name[k - dir.len() - 1]);
        } else {
            assert(w[k] == ext[k - dir.len() - 1 - name.len()]);
        }
    }
    // one word
    let one = seq![w];
    assert forall|i: int, k: int| 0 <= i < one.len() && 0 <= k < one[i].len() implies !ws_pred()(#[trigger] one[i][k]) by {
        assert(one[i] == w);
    }
    assert(ws_pred()(' '));
    lemma_split_join_pred(one, ' ', ws_pred());
    assert(join_with(one, seq![' ']) == w);
    lemma_filter_all(one, |x: Seq<char>| x.len() > 0);
    assert(words(w) == one);
    // a script word
    assert(w.subrange(w.len() - 3, w.len() as int) =~= ext);
    assert(contains_sub(w, ext));
    lemma_filter_singleton(w, script_pred());
    // its file name
    let slash = in_set(seq!['/']);
    assert(slash('/'));
    lemma_split_push_sep(dir, '/', slash);
    assert(dir.push('/') =~= dir + "/"@);
    let t = name + ext;
    assert forall|k: int| 0 <= k < t.len() implies !slash(#[trigger] t[k]) by {
        if k < name.len() {
            assert(t[k] == name[k]);
            if slash(t[k]) {
                assert(name.contains('/'));
            }
        } else {
            assert(t[k] == ext[k - name.len()]);
        }
    }
    lemma_split_append_plain(dir + "/"@, t, slash);
    assert(w =~= (dir + "/"@) + t);
    assert(after_last_slash(w) =~= t);
    // the extensions taken out
    let e = Seq::<char>::empty();
    assert(".py"@[0] == '.' && ".sh"@[0] == '.' && ".rb"@[0] == '.');
    lemma_replace_free_front(name, ext, ".py"@);
    lemma_replace_free_front(name, e, ".sh"@);
    lemma_replace_free_front(name, e, ".rb"@);
    assert(name + e =~= name);
    assert(replace_all(e, ".sh"@, e) == e);
    assert(replace_all(e, ".rb"@, e) == e);
    assert(replace_all(e, ".py"@, e) == e);
    if ext == ".py"@ {
        assert(ext.take(3) =~= ext);
        assert(ext.skip(3) =~= e);
        assert(replace_all(ext, ".py"@, e) == e + replace_all(e, ".py"@, e));
        assert(replace_all(t, ".py"@, e) =~= name);
        lemma_replace_free_front(name, e, ".sh"@);
    } else {
        assert(ext.take(3) =~= ext);
        assert(ext.take(3) != ".py"@);
        let r2 = ext.drop_first();
        assert(r2.len() < 3);
        assert(replace_all(ext, ".py"@, e) == seq![ext[0]] + replace_all(r2, ".py"@, e));
        assert(replace_all(ext, ".py"@, e) =~= ext);
        assert(replace_all(t, ".py"@, e) =~= t);
        if ext == ".sh"@ {
            assert(ext.skip(3) =~= e);
            assert(replace_all(ext, ".sh"@, e) == e + replace_all(e, ".sh"@, e));
            lemma_replace_free_front(name, ext, ".sh"@);
            assert(replace_all(t, ".sh"@, e) =~= name);
        } else {
            assert(ext.take(3) != ".sh"@);
            assert(replace_all(ext, ".sh"@, e) == seq![ext[0]] + replace_all(r2, ".sh"@, e));
            assert(replace_all(ext, ".sh"@, e) =~= ext);
            lemma_replace_free_front(name, ext, ".sh"@);
            assert(replace_all(t, ".sh"@, e) =~= t);
            assert(ext.skip(3) =~= e);
            assert(replace_all(ext, ".rb"@, e) == e + replace_all(e, ".rb"@, e));
            lemma_replace_free_front(name, ext, ".rb"@);
            assert(replace_all(t, ".rb"@, e) =~= name);
        }
    }
}

/// Without a script word, a job is named after the file name of the first word of
/// its command, or `Unknown` when there is no word.
pub proof fn lemma_extract_name_no_script(c: Seq<char>)
    requires
        forall|j: int|
            0 <= j < words(c).len() ==> !contains_sub(#[trigger] words(c)[j], ".py"@) && !contains_sub(
                words(c)[j],
                ".sh"@,
            ) && !contains_sub(words(c)[j], ".rb"@),
    ensures
        words(c).len() > 0 ==> extract_name_spec(c) == split_by(words(c)[0], in_set(seq!['/'])).last(),
        words(c).len() == 0 ==> extract_name_spec(c) == "Unknown"@,
{
    lemma_filter_none(words(c), script_pred());
}

proof fn lemma_filter_none(ws: Seq<Seq<char>>, p: spec_fn(Seq<char>) -> bool)
    requires
        forall|j: int| 0 <= j < ws.len() ==> !p(#[trigger] ws[j]),
    ensures
        ws.filter(p) == Seq::<Seq<char>>::empty(),
    decreases ws.len(),
{
    reveal(Seq::filter);
    if ws.len() > 0 {
        let t = ws.drop_last();
        assert forall|j: int| 0 <= j < t.len() implies !p(#[trigger] t[j]) by {
            assert(t[j] == ws[j]);
        }
        lemma_filter_none(t, p);
        assert(!p(ws[ws.len() - 1]));
    }
}

/// The display name of a job whose command is `command`.
pub fn extract_name_chars(command: &Vec<char>) -> (r: Vec<char>)
    ensures
        r@ == extract_name_spec(command@),
        all_ascii(command@) ==> r@ == extract_name_ascii(command@),
{
    let ws = words_of(command);
    let ghost wv = views(ws@);
    let py = chars_of(".py");
    let sh = chars_of(".sh");
    let rb = chars_of(".rb");
    proof {
        reveal_strlit(".py");
        reveal_strlit(".sh");
        reveal_strlit(".rb");
        reveal(Seq::filter);
        assert(wv.take(0) =~= Seq::<Seq<char>>::empty());
    }
    let mut i: usize = 0;
    while i < ws.len()
        invariant
            0 <= i <= ws.len(),
            wv == views(ws@),
            wv == words(command@),
            wv.take(i as int).filter(script_pred()) == Seq::<Seq<char>>::empty(),
            py@ == ".py"@,
            sh@ == ".sh"@,
            rb@ == ".rb"@,
        decreases ws.len() - i,
    {
        proof {
            wv.take(i as int).lemma_filter_push(wv[i as int], script_pred());
            assert(wv.take(i + 1) =~= wv.take(i as int).push(wv[i as int]));
        }
        let w = &ws[i];
        if contains_chars(w, &py) || contains_chars(w, &sh) || contains_chars(w, &rb) {
            proof {
                let rest = wv.skip(i + 1);
                assert(wv =~= wv.take(i as int) + (seq![wv[i as int]] + rest));
                Seq::filter_distributes_over_add(wv.take(i as int), seq![wv[i as int]] + rest, script_pred());
                Seq::filter_distributes_over_add(seq![wv[i as int]], rest, script_pred());
                lemma_filter_singleton(wv[i as int], script_pred());
                assert(wv.filter(script_pred()) =~= seq![wv[i as int]] + rest.filter(script_pred()));
            }
            proof {
                reveal_strlit(".py");
                reveal_strlit(".sh");
                reveal_strlit(".rb");
            }
            let file = after_last_slash_of(w);
            let empty: Vec<char> = Vec::new();
            let a = replace_chars(&file, &py, &empty);
            let b = replace_chars(&a, &sh, &empty);
            let c = replace_chars(&b, &rb, &empty);
            assert(empty@ =~= Seq::<char>::empty());
            proof {
                if all_ascii(command@) {
                    lemma_words_ascii(command@);
                    lemma_script_name_ascii(wv[i as int]);
                }
            }
            return title_case_chars(&c);
        }
        i += 1;
    }
    assert(wv.take(ws.len() as int) =~= wv);
    if ws.len() > 0 {
        after_last_slash_of(&ws[0])
    } else {
        chars_of("Unknown")
    }
}

/// The display name of a job whose command is `command`.
pub fn extract_name(command: &str) -> (r: String)
    ensures
        r@ == extract_name_spec(command@),
        all_ascii(command@) ==> r@ == extract_name_ascii(command@),
{
    let cs = chars_of(command);
    let n = extract_name_chars(&cs);
    string_of(&n)
}


/// Whether `c` is an ASCII decimal digit.
pub open spec fn is_digit(c: char) -> bool {
    48 <= (c as u32) <= 57
}

/// The value of a string of decimal digits.
pub open spec fn digits_value(d: Seq<char>) -> nat
    decreases d.len(),
{
    if d.len() == 0 {
        0
    } else {
        digits_value(d.drop_last()) * 10 + ((d.last() as u32) - 48) as nat
    }
}

/// `s` without one leading `'+'`.
pub open spec fn unsigned_digits(s: Seq<char>) -> Seq<char> {
    if s.len() > 0 && s[0] == '+' {
        s.drop_first()
    } else {
        s
    }
}

/// Whether every character of `d` is a decimal digit.
pub open spec fn all_digits(d: Seq<char>) -> bool {
    forall|i: int| 0 <= i < d.len() ==> is_digit(#[trigger] d[i])
}

/// What `s.parse::<usize>()` gives: an optional `'+'`, then one or more decimal
/// digits whose value fits in `usize`.
pub open spec fn parse_usize(s: Seq<char>) -> Option<nat> {
    let d = unsigned_digits(s);
    if d.len() > 0 && all_digits(d) && digits_value(d) <= usize::MAX {
        Some(digits_value(d))
    } else {
        None
    }
}

/// Writing a number in decimal and reading the digits back gives the number: the
/// digits are decimal digits, most significant first, with no leading zero.
pub proof fn lemma_digits_read_back(n: nat)
    ensures
        nat_digits(n).len() > 0,
        all_digits(nat_digits(n)),
        digits_value(nat_digits(n)) == n,
        n > 0 ==> nat_digits(n)[0] != '0',
    decreases n,
{
    if n < 10 {
        let d = nat_digits(n);
        assert(d == seq![digit_char(n)]);
        assert((digit_char(n) as u32) == 48 + n);
        assert(d.drop_last() =~= Seq::<char>::empty());
        assert(digits_value(Seq::<char>::empty()) == 0);
    } else {
        lemma_digits_read_back(n / 10);
        let p = nat_digits(n / 10);
        let d = nat_digits(n);
        assert(d == p.push(digit_char(n % 10)));
        assert((digit_char(n % 10) as u32) == 48 + n % 10);
        assert(d.drop_last() =~= p);
        assert(d[0] == p[0]);
        assert(n == (n / 10) * 10 + n % 10);
    }
}

/// Day names by weekday number, Sunday first.
pub open spec fn day_names() -> Seq<Seq<char>> {
    seq!["Sun"@, "Mon"@, "Tue"@, "Wed"@, "Thu"@, "Fri"@, "Sat"@]
}

/// Whether a day-of-week item is a weekday number with a name.
pub open spec fn is_day(item: Seq<char>) -> bool {
    match parse_usize(item) {
        Some(i) => i < 7,
        None => false,
    }
}

pub open spec fn day_pred() -> spec_fn(Seq<char>) -> bool {
    |item: Seq<char>| is_day(item)
}

/// The name of a weekday number.
pub open spec fn day_name(item: Seq<char>) -> Seq<char> {
    day_names()[parse_usize(item).unwrap() as int]
}

pub open spec fn day_name_list(items: Seq<Seq<char>>) -> Seq<Seq<char>> {
    items.map_values(|item: Seq<char>| day_name(item))
}

/// The names of the weekdays that a comma-separated day-of-week field lists; items
/// that are not weekday numbers are left out.
pub open spec fn day_list(dow: Seq<char>) -> Seq<char> {
    join_with(day_name_list(split_by(dow, in_set(seq![','])).filter(day_pred())), ", "@)
}

/// A cron expression in words: `Daily at HH:MM` when both day fields are `*`,
/// `<days> at HH:MM` when only the day-of-month is `*`, else the expression itself.
/// Hours and minutes are padded with `0` to two characters.
pub open spec fn human_schedule_spec(expr: Seq<char>) -> Seq<char> {
    let p = words(expr);
    if p.len() != 5 {
        expr
    } else if p[2] == "*"@ && p[4] == "*"@ {
        "Daily at "@ + pad2(p[1]) + ":"@ + pad2(p[0])
    } else if p[2] == "*"@ {
        day_list(p[4]) + " at "@ + pad2(p[1]) + ":"@ + pad2(p[0])
    } else {
        expr
    }
}

proof fn lemma_filter_all(ws: Seq<Seq<char>>, p: spec_fn(Seq<char>) -> bool)
    requires
        forall|j: int| 0 <= j < ws.len() ==> p(#[trigger] ws[j]),
    ensures
        ws.filter(p) == ws,
    decreases ws.len(),
{
    reveal(Seq::filter);
    if ws.len() > 0 {
        let t = ws.drop_last();
        assert forall|j: int| 0 <= j < t.len() implies p(#[trigger] t[j]) by {
            assert(t[j] == ws[j]);
        }
        lemma_filter_all(t, p);
        assert(p(ws[ws.len() - 1]));
        assert(t.push(ws.last()) =~= ws);
    }
}

proof fn lemma_day_item(c: char)
    requires
        '0' <= c <= '9',
    ensures
        (c as u32) - 48 < 7 ==> day_pred()(seq![c]) && day_name(seq![c]) == day_names()[(c as u32) - 48],
        (c as u32) - 48 >= 7 ==> !day_pred()(seq![c]),
{
    let d = seq![c];
    assert(unsigned_digits(d) == d);
    assert(d.drop_last() =~= Seq::<char>::empty());
    assert(digits_value(Seq::<char>::empty()) == 0);
    assert(d.last() == c);
    assert(digits_value(d) == ((c as u32) - 48) as nat);
}

/// A day-of-week list names its weekdays in order, joined with `, `, each number
/// `k` below 7 by the `k`-th of Sun, Mon, Tue, Wed, Thu, Fri, Sat, and numbers of 7
/// or more left out.
pub proof fn lemma_day_list_two(c1: char, c2: char)
    requires
        '0' <= c1 <= '6',
        '0' <= c2 <= '9',
    ensures
        ({
            let names = seq!["Sun"@, "Mon"@, "Tue"@, "Wed"@, "Thu"@, "Fri"@, "Sat"@];
            &&& c2 <= '6' ==> day_list(seq![c1, ',', c2]) == names[(c1 as u32) - 48] + ", "@ + names[(c2 as u32)
                - 48]
            &&& c2 > '6' ==> day_list(seq![c1, ',', c2]) == names[(c1 as u32) - 48]
        }),
{
    let comma = in_set(seq![',']);
    let ls = seq![seq![c1], seq![c2]];
    assert(comma(','));
    assert forall|i: int, k: int| 0 <= i < ls.len() && 0 <= k < ls[i].len() implies !comma(#[trigger] ls[i][k]) by {
        if i == 0 {
            assert(ls[i][k] == c1);
        } else {
            assert(ls[i][k] == c2);
        }
    }
    lemma_split_join_pred(ls, ',', comma);
    assert(ls.drop_last() =~= seq![seq![c1]]);
    assert(join_with(seq![seq![c1]], seq![',']) == seq![c1]);
    assert(join_with(ls, seq![',']) =~= seq![c1, ',', c2]);
    lemma_day_item(c1);
    lemma_day_item(c2);
    let n1 = day_names()[(c1 as u32) - 48];
    Seq::filter_distributes_over_add(seq![seq![c1]], seq![seq![c2]], day_pred());
    assert(ls =~= seq![seq![c1]] + seq![seq![c2]]);
    lemma_filter_singleton(seq![c1], day_pred());
    if c2 <= '6' {
        lemma_filter_singleton(seq![c2], day_pred());
        let n2 = day_names()[(c2 as u32) - 48];
        let nl = seq![n1, n2];
        assert(day_name_list(ls.filter(day_pred())) =~= nl);
        assert(nl.drop_last() =~= seq![n1]);
        assert(join_with(nl, ", "@) == join_with(seq![n1], ", "@) + ", "@ + n2);
    } else {
        lemma_filter_none(seq![seq![c2]], day_pred());
        assert(day_name_list(ls.filter(day_pred())) =~= seq![n1]);
    }
}

/// Five whitespace-free words joined by single spaces split back into those words.
proof fn lemma_five_words(a: Seq<char>, b: Seq<char>, c: Seq<char>, d: Seq<char>, e: Seq<char>)
    requires
        a.len() > 0 && b.len() > 0 && c.len() > 0 && d.len() > 0 && e.len() > 0,
        forall|i: int| 0 <= i < a.len() ==> !is_ws(#[trigger] a[i]),
        forall|i: int| 0 <= i < b.len() ==> !is_ws(#[trigger] b[i]),
        forall|i: int| 0 <= i < c.len() ==> !is_ws(#[trigger] c[i]),
        forall|i: int| 0 <= i < d.len() ==> !is_ws(#[trigger] d[i]),
        forall|i: int| 0 <= i < e.len() ==> !is_ws(#[trigger] e[i]),
    ensures
        words(a + seq![' '] + b + seq![' '] + c + seq![' '] + d + seq![' '] + e) == seq![a, b, c, d, e],
{
    let ls = seq![a, b, c, d, e];
    let sp = seq![' '];
    assert(ls.drop_last().drop_last().drop_last().drop_last() =~= seq![a]);
    assert(ls.drop_last().drop_last().drop_last() =~= seq![a, b]);
    assert(ls.drop_last().drop_last() =~= seq![a, b, c]);
    assert(ls.drop_last() =~= seq![a, b, c, d]);
    assert(join_with(seq![a, b], sp) == join_with(seq![a], sp) + sp + b);
    assert(join_with(seq![a, b, c], sp) == join_with(seq![a, b], sp) + sp + c);
    assert(join_with(seq![a, b, c, d], sp) == join_with(seq![a, b, c], sp) + sp + d);
    assert(join_with(ls, sp) == join_with(seq![a, b, c, d], sp) + sp + e);
    assert(join_with(ls, sp) =~= a + sp + b + sp + c + sp + d + sp + e);
    assert(ws_pred()(' '));
    assert forall|i: int, j: int| 0 <= i < ls.len() && 0 <= j < ls[i].len() implies !ws_pred()(
        #[trigger] ls[i][j],
    ) by {
        if i == 0 {
            assert(!is_ws(a[j]));
        } else if i == 1 {
            assert(!is_ws(b[j]));
        } else if i == 2 {
            assert(!is_ws(c[j]));
        } else if i == 3 {
            assert(!is_ws(d[j]));
        } else {
            assert(!is_ws(e[j]));
        }
    }
    lemma_split_join_pred(ls, ' ', ws_pred());
    lemma_filter_all(ls, |w: Seq<char>| w.len() > 0);
}

/// A schedule whose day fields are both `*` reads as `Daily at HH:MM`, the hour and
/// minute padded with `0` to two characters; one whose day of month is not `*`
/// reads as the expression itself.
pub proof fn lemma_daily_in_words(m: Seq<char>, h: Seq<char>, dom: Seq<char>, mon: Seq<char>, dow: Seq<char>)
    requires
        m.len() > 0 && h.len() > 0 && dom.len() > 0 && mon.len() > 0 && dow.len() > 0,
        forall|i: int| 0 <= i < m.len() ==> !is_ws(#[trigger] m[i]),
        forall|i: int| 0 <= i < h.len() ==> !is_ws(#[trigger] h[i]),
        forall|i: int| 0 <= i < dom.len() ==> !is_ws(#[trigger] dom[i]),
        forall|i: int| 0 <= i < mon.len() ==> !is_ws(#[trigger] mon[i]),
        forall|i: int| 0 <= i < dow.len() ==> !is_ws(#[trigger] dow[i]),
    ensures
        dom == "*"@ && dow == "*"@ ==> human_schedule_spec(m + " "@ + h + " "@ + dom + " "@ + mon + " "@ + dow)
            == "Daily at "@ + pad2(h) + ":"@ + pad2(m),
        dom != "*"@ ==> human_schedule_spec(m + " "@ + h + " "@ + dom + " "@ + mon + " "@ + dow) == m + " "@ + h
            + " "@ + dom + " "@ + mon + " "@ + dow,
        pad2(m) == if m.len() == 1 { "0"@ + m } else { m },
{
    reveal_strlit(" ");
    reveal_strlit("0");
    lemma_five_words(m, h, dom, mon, dow);
    assert(m + " "@ + h + " "@ + dom + " "@ + mon + " "@ + dow =~= m + seq![' '] + h + seq![' '] + dom + seq![' ']
        + mon + seq![' '] + dow);
}

/// A weekly schedule in words names its weekday: for minute `m` and hour `h`
/// (words without whitespace) and weekday number `k` below 7, `m h * * k` reads as
/// the `k`-th of Sun, Mon, Tue, Wed, Thu, Fri, Sat, then ` at ` and the hour and
/// minute padded to two characters.
pub proof fn lemma_weekday_in_words(m: Seq<char>, h: Seq<char>, c: char)
    requires
        '0' <= c <= '6',
        m.len() > 0,
        h.len() > 0,
        forall|i: int| 0 <= i < m.len() ==> !is_ws(#[trigger] m[i]),
        forall|i: int| 0 <= i < h.len() ==> !is_ws(#[trigger] h[i]),
    ensures
        human_schedule_spec(m + " "@ + h + " * * "@ + seq![c]) == seq![
            "Sun"@,
            "Mon"@,
            "Tue"@,
            "Wed"@,
            "Thu"@,
            "Fri"@,
            "Sat"@,
        ][(c as u32) - 48] + " at "@ + pad2(h) + ":"@ + pad2(m),
{
    reveal_strlit(" ");
    reveal_strlit(" * * ");
    reveal_strlit("*");
    let k: nat = ((c as u32) - 48) as nat;
    let d = seq![c];
    let star = "*"@;
    let ls = seq![m, h, star, star, d];
    let expr = m + " "@ + h + " * * "@ + d;
    let sp = seq![' '];
    assert(ls.drop_last().drop_last().drop_last().drop_last() =~= seq![m]);
    assert(ls.drop_last().drop_last().drop_last() =~= seq![m, h]);
    assert(ls.drop_last().drop_last() =~= seq![m, h, star]);
    assert(ls.drop_last() =~= seq![m, h, star, star]);
    assert(join_with(seq![m, h], sp) == join_with(seq![m], sp) + sp + h);
    assert(join_with(seq![m, h, star], sp) == join_with(seq![m, h], sp) + sp + star);
    assert(join_with(seq![m, h, star, star], sp) == join_with(seq![m, h, star], sp) + sp + star);
    assert(join_with(ls, sp) == join_with(seq![m, h, star, star], sp) + sp + d);
    assert(join_with(ls, sp) =~= expr);
    assert(ws_pred()(' '));
    assert forall|i: int, j: int| 0 <= i < ls.len() && 0 <= j < ls[i].len() implies !ws_pred()(
        #[trigger] ls[i][j],
    ) by {
        if i == 0 {
            assert(!is_ws(m[j]));
        } else if i == 1 {
            assert(!is_ws(h[j]));
        }
    }
    lemma_split_join_pred(ls, ' ', ws_pred());
    lemma_filter_all(ls, |w: Seq<char>| w.len() > 0);
    assert(words(expr) == ls);
    assert(d != star);
    // the day-of-week field
    let comma = in_set(seq![',']);
    assert(split_by(d, comma) == seq![d]) by {
        assert(d.drop_last() =~= Seq::<char>::empty());
        assert(split_by(Seq::<char>::empty(), comma) == seq![Seq::<char>::empty()]);
        assert(!comma(c));
        assert(seq![Seq::<char>::empty()].update(0, Seq::<char>::empty().push(c)) =~= seq![d]);
    }
    assert(unsigned_digits(d) == d);
    assert(d.drop_last() =~= Seq::<char>::empty());
    assert(digits_value(Seq::<char>::empty()) == 0);
    assert(d.last() == c);
    assert(digits_value(d) == digits_value(d.drop_last()) * 10 + ((c as u32) - 48) as nat);
    assert(digits_value(d) == k);
    assert(parse_usize(d) == Some(k));
    assert(day_pred()(d));
    lemma_filter_singleton(d, day_pred());
    assert(day_name_list(seq![d]) =~= seq![day_names()[k as int]]);
}

proof fn lemma_digits_capped(d: Seq<char>, i: int, acc: nat, c: char)
    requires
        0 <= i < d.len(),
        d[i] == c,
        is_digit(c),
        acc == if digits_value(d.take(i)) < 7 { digits_value(d.take(i)) } else { 7 },
    ensures
        ({
            let v = acc * 10 + ((c as u32) - 48) as nat;
            (if v < 7 { v } else { 7nat }) == if digits_value(d.take(i + 1)) < 7 {
                digits_value(d.take(i + 1))
            } else {
                7
            }
        }),
{
    assert(d.take(i + 1).drop_last() =~= d.take(i));
    assert(d.take(i + 1).last() == c);
}

/// The weekday number that `item` names, when it names one below 7.
fn day_index(item: &Vec<char>) -> (r: Option<usize>)
    ensures
        r is Some <==> is_day(item@),
        r matches Some(i) ==> i == parse_usize(item@).unwrap() && i < 7,
{
    let start: usize = if item.len() > 0 && item[0] == '+' {
        1
    } else {
        0
    };
    let ghost d = item@.skip(start as int);
    assert(d =~= unsigned_digits(item@));
    if start == item.len() {
        return None;
    }
    let mut acc: usize = 0;
    let mut i: usize = start;
    assert(d.take(0) =~= Seq::<char>::empty());
    while i < item.len()
        invariant
            start <= i <= item.len(),
            d == item@.skip(start as int),
            d == unsigned_digits(item@),
            acc == if digits_value(d.take(i - start)) < 7 {
                digits_value(d.take(i - start))
            } else {
                7
            },
            forall|k: int| 0 <= k < i - start ==> is_digit(#[trigger] d[k]),
        decreases item.len() - i,
    {
        let c = item[i];
        let u = c as u32;
        if u < 48 || u > 57 {
            assert(!is_digit(d[i - start]));
            return None;
        }
        proof {
            lemma_digits_capped(d, i - start, acc as nat, c);
        }
        let v = acc * 10 + (u - 48) as usize;
        acc = if v < 7 {
            v
        } else {
            7
        };
        i += 1;
    }
    assert(d.take(d.len() as int) =~= d);
    if acc < 7 {
        Some(acc)
    } else {
        None
    }
}

fn day_name_of(i: usize) -> (r: Vec<char>)
    requires
        i < 7,
    ensures
        r@ == day_names()[i as int],
{
    if i == 0 {
        chars_of("Sun")
    } else if i == 1 {
        chars_of("Mon")
    } else if i == 2 {
        chars_of("Tue")
    } else if i == 3 {
        chars_of("Wed")
    } else if i == 4 {
        chars_of("Thu")
    } else if i == 5 {
        chars_of("Fri")
    } else {
        chars_of("Sat")
    }
}

fn day_names_of(items: &Vec<Vec<char>>) -> (names: Vec<Vec<char>>)
    ensures
        views(names@) == day_name_list(views(items@).filter(day_pred())),
{
    let ghost iv = views(items@);
    let mut names: Vec<Vec<char>> = Vec::new();
    let mut i: usize = 0;
    proof {
        reveal(Seq::filter);
        assert(iv.take(0) =~= Seq::<Seq<char>>::empty());
        assert(views(names@) =~= Seq::<Seq<char>>::empty());
    }
    while i < items.len()
        invariant
            0 <= i <= items.len(),
            iv == views(items@),
            views(names@) == day_name_list(iv.take(i as int).filter(day_pred())),
        decreases items.len() - i,
    {
        proof {
            iv.take(i as int).lemma_filter_push(iv[i as int], day_pred());
            assert(iv.take(i + 1) =~= iv.take(i as int).push(iv[i as int]));
        }
        let ghost before = views(names@);
        match day_index(&items[i]) {
            Some(k) => {
                let name = day_name_of(k);
                names.push(name);
                assert(views(names@) =~= before.push(name@));
                assert(day_name_list(iv.take(i as int).filter(day_pred()).push(iv[i as int]))
                    =~= before.push(day_name(iv[i as int])));
            },
            None => {},
        }
        i += 1;
    }
    assert(iv.take(items.len() as int) =~= iv);
    names
}

fn day_list_of(dow: &Vec<char>) -> (r: Vec<char>)
    ensures
        r@ == day_list(dow@),
{
    let mut comma: Vec<char> = Vec::new();
    comma.push(',');
    assert(comma@ =~= seq![',']);
    let items = split_on(dow, &comma);
    let names = day_names_of(&items);
    let sep = chars_of(", ");
    join_chars(&names, &sep)
}

/// A cron expression in words.
pub fn human_schedule(expr: &str) -> (r: String)
    ensures
        r@ == human_schedule_spec(expr@),
{
    let e = chars_of(expr);
    let p = words_of(&e);
    if p.len() != 5 {
        return string_of(&e);
    }
    let star = chars_of("*");
    let min = pad2_chars(&p[0]);
    let hour = pad2_chars(&p[1]);
    let dom_any = eq_chars(&p[2], &star);
    let dow_any = eq_chars(&p[4], &star);
    let mut r: Vec<char>;
    if dom_any && dow_any {
        r = chars_of("Daily at ");
    } else if dom_any {
        r = day_list_of(&p[4]);
        let at = chars_of(" at ");
        append_vec(&mut r, &at);
    } else {
        return string_of(&e);
    }
    append_vec(&mut r, &hour);
    let colon = chars_of(":");
    append_vec(&mut r, &colon);
    append_vec(&mut r, &min);
    string_of(&r)
}


/// `a / b` rounded toward zero, for `b > 0`, as Rust's integer division rounds.
pub open spec fn trunc_div(a: int, b: int) -> int {
    if a >= 0 {
        a / b
    } else {
        -((-a) / b)
    }
}

/// The whole seconds from `then` to `now`, rounded toward zero
/// (`now.signed_duration_since(then).num_seconds()`).
pub open spec fn elapsed_secs(now: Timestamp, then: Timestamp) -> int {
    trunc_div(
        (now.secs - then.secs) * 1_000_000_000 + now.nanos - then.nanos,
        1_000_000_000,
    )
}

/// How long ago, in words, for an elapsed time of `secs` whole seconds: `just now`
/// under a minute (and for times ahead), else whole minutes under an hour, whole
/// hours under a day, else whole days.
pub open spec fn time_ago_text(secs: int) -> Seq<char> {
    let mins = trunc_div(secs, 60);
    let hrs = trunc_div(secs, 3600);
    if mins < 1 {
        "just now"@
    } else if mins < 60 {
        nat_digits(mins as nat) + "m ago"@
    } else if hrs < 24 {
        nat_digits(hrs as nat) + "h ago"@
    } else {
        nat_digits(trunc_div(secs, 86400) as nat) + "d ago"@
    }
}

/// How long ago in words, by elapsed seconds: under a minute (or ahead) `just now`;
/// under an hour the whole minutes and `m ago`; under a day the whole hours and
/// `h ago`; else the whole days and `d ago`.
pub proof fn lemma_time_ago_units(secs: int)
    ensures
        secs < 60 ==> time_ago_text(secs) == "just now"@,
        60 <= secs < 3600 ==> time_ago_text(secs) == nat_digits((secs / 60) as nat) + "m ago"@,
        3600 <= secs < 86400 ==> time_ago_text(secs) == nat_digits((secs / 3600) as nat) + "h ago"@,
        86400 <= secs ==> time_ago_text(secs) == nat_digits((secs / 86400) as nat) + "d ago"@,
{
    if secs < 0 {
        assert((-secs) / 60 >= 0);
    }
}

/// The elapsed whole seconds between two valid timestamps: the difference of their
/// seconds, one less when the later one's nanoseconds are behind and the gap is
/// positive.
pub proof fn lemma_elapsed_secs(now: Timestamp, then: Timestamp)
    requires
        now.wf(),
        then.wf(),
    ensures
        now.secs >= then.secs && now.nanos >= then.nanos ==> elapsed_secs(now, then) == now.secs - then.secs,
        now.secs > then.secs && now.nanos < then.nanos ==> elapsed_secs(now, then) == now.secs - then.secs - 1,
{
    let d = now.secs - then.secs;
    let total = d * 1_000_000_000 + now.nanos - then.nanos;
    if d >= 0 && now.nanos >= then.nanos {
        assert(total / 1_000_000_000 == d) by (nonlinear_arith)
            requires
                total == d * 1_000_000_000 + now.nanos - then.nanos,
                0 <= now.nanos - then.nanos < 1_000_000_000,
                d >= 0,
        ;
    }
    if d > 0 && now.nanos < then.nanos {
        assert(total / 1_000_000_000 == d - 1) by (nonlinear_arith)
            requires
                total == d * 1_000_000_000 + now.nanos - then.nanos,
                -1_000_000_000 < now.nanos - then.nanos < 0,
                d > 0,
        ;
    }
}

fn trunc_div_i128(a: i128, b: i128) -> (r: i128)
    requires
        b > 0,
        a > i128::MIN,
    ensures
        r == trunc_div(a as int, b as int),
{
    if a >= 0 {
        a / b
    } else {
        -((-a) / b)
    }
}

/// How long before `now` the time `then` lies, in words.
pub fn time_ago_between(now: &Timestamp, then: &Timestamp) -> (r: String)
    ensures
        r@ == time_ago_text(elapsed_secs(*now, *then)),
{
    let total: i128 = (now.secs as i128 - then.secs as i128) * 1_000_000_000i128 + (now.nanos as i128
        - then.nanos as i128);
    let secs = trunc_div_i128(total, 1_000_000_000);
    let mins = trunc_div_i128(secs, 60);
    let mut r: Vec<char>;
    if mins < 1 {
        r = chars_of("just now");
    } else if mins < 60 {
        r = nat_digits_of(mins as u128);
        let unit = chars_of("m ago");
        append_vec(&mut r, &unit);
    } else {
        let hrs = trunc_div_i128(secs, 3600);
        if hrs < 24 {
            r = nat_digits_of(hrs as u128);
            let unit = chars_of("h ago");
            append_vec(&mut r, &unit);
        } else {
            let days = trunc_div_i128(secs, 86400);
            r = nat_digits_of(days as u128);
            let unit = chars_of("d ago");
            append_vec(&mut r, &unit);
        }
    }
    string_of(&r)
}

/// How long ago `dt` was, in words, measured from the current time.
pub fn time_ago(dt: &Timestamp) -> (r: String)
    ensures
        exists|now: Timestamp| now.wf() && r@ == time_ago_text(elapsed_secs(now, *dt)),
{
    let now = now_timestamp();
    let r = time_ago_between(&now, dt);
    assert(now.wf() && r@ == time_ago_text(elapsed_secs(now, *dt)));
    r
}


/// The time `secs` seconds before `now` (the earliest second `i64` holds, when
/// that lies before it).
pub open spec fn before(now: Timestamp, secs: int) -> Timestamp {
    Timestamp { secs: now.secs_before(secs), nanos: now.nanos }
}

pub open spec fn log_is(
    l: RunLog,
    timestamp: Timestamp,
    status: RunStatus,
    duration: Seq<char>,
    output: Seq<char>,
) -> bool {
    &&& l.timestamp == timestamp
    &&& l.status == status
    &&& l.duration@ == duration
    &&& l.output@ == output
}

pub open spec fn job_is(
    j: CronJob,
    id: usize,
    name: Seq<char>,
    schedule: Seq<char>,
    command: Seq<char>,
    enabled: bool,
) -> bool {
    &&& j.id == id
    &&& j.name@ == name
    &&& j.schedule@ == schedule
    &&& j.command@ == command
    &&& j.enabled == enabled
}

pub open spec fn launchd_source_is(s: JobSource, label: Seq<char>, plist_path: Seq<char>) -> bool {
    s matches JobSource::Launchd { label: l, plist_path: p } && l@ == label && p@ == plist_path
}

pub open spec fn ran(j: CronJob, at: Timestamp, status: RunStatus, duration: Seq<char>) -> bool {
    &&& j.last_run == Some(at)
    &&& j.last_status == Some(status)
    &&& j.last_duration matches Some(d) && d@ == duration
}

/// The five demonstration jobs, their runs dated back from `now`.
pub open spec fn is_sample_jobs(js: Seq<CronJob>, now: Timestamp) -> bool {
    let hour: int = 3600;
    let day: int = 86400;
    let briefing = "Briefing sent to Telegram successfully."@;
    &&& js.len() == 5
    &&& job_is(js[0], 0, "Robotics Briefing"@, "0 7 * * *"@,
        "cd /Users/m4server/projects/briefing && python3 briefing.py --config config/robotics.json"@, true)
    &&& js[0].source == JobSource::Cron
    &&& ran(js[0], before(now, 3 * hour), RunStatus::Success, "14s"@)
    &&& js[0].logs@.len() == 4
    &&& log_is(js[0].logs@[0], before(now, 3 * hour), RunStatus::Success, "14s"@, briefing)
    &&& log_is(js[0].logs@[1], before(now, 27 * hour), RunStatus::Success, "12s"@, briefing)
    &&& log_is(js[0].logs@[2], before(now, 51 * hour), RunStatus::Error, "3s"@, "Set TELEGRAM_BOT_TOKEN in .env"@)
    &&& log_is(js[0].logs@[3], before(now, 75 * hour), RunStatus::Success, "15s"@, briefing)
    &&& job_is(js[1], 1, "Backup Database"@, "30 2 * * *"@,
        "pg_dump mydb | gzip > /backups/mydb_$(date +%Y%m%d).sql.gz"@, true)
    &&& js[1].source == JobSource::Cron
    &&& ran(js[1], before(now, 8 * hour), RunStatus::Success, "45s"@)
    &&& js[1].logs@.len() == 2
    &&& log_is(js[1].logs@[0], before(now, 8 * hour), RunStatus::Success, "45s"@,
        "Backup completed: mydb_20260322.sql.gz (234MB)"@)
    &&& log_is(js[1].logs@[1], before(now, 32 * hour), RunStatus::Success, "42s"@,
        "Backup completed: mydb_20260321.sql.gz (231MB)"@)
    &&& job_is(js[2], 2, "Clear Temp Files"@, "0 0 * * 0"@, "find /tmp -type f -mtime +7 -delete"@, false)
    &&& js[2].source == JobSource::Cron
    &&& ran(js[2], before(now, 6 * day), RunStatus::Success, "2s"@)
    &&& js[2].logs@.len() == 1
    &&& log_is(js[2].logs@[0], before(now, 6 * day), RunStatus::Success, "2s"@, "Removed 47 files, freed 1.2GB"@)
    &&& job_is(js[3], 3, "Backup Photos"@, "0 2 * * *"@,
        "/usr/local/bin/rsync -a ~/Pictures /Volumes/Backup/Pictures"@, true)
    &&& launchd_source_is(js[3].source, "com.user.backup-photos"@,
        "/Users/user/Library/LaunchAgents/com.user.backup-photos.plist"@)
    &&& ran(js[3], before(now, 14 * hour), RunStatus::Success, "28s"@)
    &&& js[3].logs@.len() == 1
    &&& log_is(js[3].logs@[0], before(now, 14 * hour), RunStatus::Success, "28s"@, "Photos synced successfully."@)
    &&& job_is(js[4], 4, "Log Cleanup"@, "0 0 * * 0"@,
        "/bin/sh -c 'find ~/Library/Logs -name \"*.log\" -mtime +30 -delete'"@, false)
    &&& launchd_source_is(js[4].source, "com.user.log-cleanup"@,
        "/Users/user/Library/LaunchAgents/com.user.log-cleanup.plist"@)
    &&& js[4].last_run is None
    &&& js[4].last_status is None
    &&& js[4].last_duration is None
    &&& js[4].logs@.len() == 0
}

fn run_log(timestamp: Timestamp, status: RunStatus, duration: &str, output: &str) -> (l: RunLog)
    ensures
        log_is(l, timestamp, status, duration@, output@),
{
    RunLog { timestamp, status, duration: duration.to_owned(), output: output.to_owned() }
}

fn sample_job(
    id: usize,
    name: &str,
    schedule: &str,
    command: &str,
    enabled: bool,
    source: JobSource,
) -> (j: CronJob)
    ensures
        job_is(j, id, name@, schedule@, command@, enabled),
        j.source == source,
        j.last_run is None,
        j.last_status is None,
        j.last_duration is None,
        j.logs@.len() == 0,
{
    CronJob {
        id,
        name: name.to_owned(),
        schedule: schedule.to_owned(),
        command: command.to_owned(),
        enabled,
        source,
        last_run: None,
        last_status: None,
        last_duration: None,
        logs: Vec::new(),
    }
}

/// The five demonstration jobs, their runs dated back from `now`.
pub fn sample_jobs_at(now: Timestamp) -> (js: Vec<CronJob>)
    ensures
        is_sample_jobs(js@, now),
{
    let hour: i64 = 3600;
    let day: i64 = 86400;
    let briefing = "Briefing sent to Telegram successfully.";
    let mut j0 = sample_job(0, "Robotics Briefing", "0 7 * * *",
        "cd /Users/m4server/projects/briefing && python3 briefing.py --config config/robotics.json", true,
        JobSource::Cron);
    j0.last_run = Some(now.seconds_before(3 * hour));
    j0.last_status = Some(RunStatus::Success);
    j0.last_duration = Some("14s".to_owned());
    j0.logs.push(run_log(now.seconds_before(3 * hour), RunStatus::Success, "14s", briefing));
    j0.logs.push(run_log(now.seconds_before(27 * hour), RunStatus::Success, "12s", briefing));
    j0.logs.push(run_log(now.seconds_before(51 * hour), RunStatus::Error, "3s", "Set TELEGRAM_BOT_TOKEN in .env"));
    j0.logs.push(run_log(now.seconds_before(75 * hour), RunStatus::Success, "15s", briefing));

    let mut j1 = sample_job(1, "Backup Database", "30 2 * * *",
        "pg_dump mydb | gzip > /backups/mydb_$(date +%Y%m%d).sql.gz", true, JobSource::Cron);
    j1.last_run = Some(now.seconds_before(8 * hour));
    j1.last_status = Some(RunStatus::Success);
    j1.last_duration = Some("45s".to_owned());
    j1.logs.push(run_log(now.seconds_before(8 * hour), RunStatus::Success, "45s",
        "Backup completed: mydb_20260322.sql.gz (234MB)"));
    j1.logs.push(run_log(now.seconds_before(32 * hour), RunStatus::Success, "42s",
        "Backup completed: mydb_20260321.sql.gz (231MB)"));

    let mut j2 = sample_job(2, "Clear Temp Files", "0 0 * * 0", "find /tmp -type f -mtime +7 -delete", false,
        JobSource::Cron);
    j2.last_run = Some(now.seconds_before(6 * day));
    j2.last_status = Some(RunStatus::Success);
    j2.last_duration = Some("2s".to_owned());
    j2.logs.push(run_log(now.seconds_before(6 * day), RunStatus::Success, "2s", "Removed 47 files, freed 1.2GB"));

    let mut j3 = sample_job(3, "Backup Photos", "0 2 * * *",
        "/usr/local/bin/rsync -a ~/Pictures /Volumes/Backup/Pictures", true,
        JobSource::Launchd {
            label: "com.user.backup-photos".to_owned(),
            plist_path: "/Users/user/Library/LaunchAgents/com.user.backup-photos.plist".to_owned(),
        });
    j3.last_run = Some(now.seconds_before(14 * hour));
    j3.last_status = Some(RunStatus::Success);
    j3.last_duration = Some("28s".to_owned());
    j3.logs.push(run_log(now.seconds_before(14 * hour), RunStatus::Success, "28s", "Photos synced successfully."));

    let j4 = sample_job(4, "Log Cleanup", "0 0 * * 0",
        "/bin/sh -c 'find ~/Library/Logs -name \"*.log\" -mtime +30 -delete'", false,
        JobSource::Launchd {
            label: "com.user.log-cleanup".to_owned(),
            plist_path: "/Users/user/Library/LaunchAgents/com.user.log-cleanup.plist".to_owned(),
        });

    let mut js: Vec<CronJob> = Vec::new();
    js.push(j0);
    js.push(j1);
    js.push(j2);
    js.push(j3);
    js.push(j4);
    js
}

/// The demonstration jobs are numbered 0 to 4 in order.
pub proof fn lemma_sample_ids(js: Seq<CronJob>, now: Timestamp)
    requires
        is_sample_jobs(js, now),
    ensures
        ids_in_order(js),
{
    assert forall|i: int| 0 <= i < js.len() implies (#[trigger] js[i]).id == i by {
        if i == 0 {
        } else if i == 1 {
        } else if i == 2 {
        } else if i == 3 {
        } else {
        }
    }
}

/// The five demonstration jobs, their runs dated back from the current time.
pub fn sample_jobs() -> (js: Vec<CronJob>)
    ensures
        exists|now: Timestamp| now.wf() && is_sample_jobs(js@, now),
        ids_in_order(js@),
{
    let now = now_timestamp();
    let js = sample_jobs_at(now);
    proof {
        lemma_sample_ids(js@, now);
    }
    assert(now.wf() && is_sample_jobs(js@, now));
    js
}

/// `jobs`, or the demonstration jobs when there are none.
pub fn jobs_or_samples(jobs: Vec<CronJob>) -> (r: Vec<CronJob>)
    ensures
        jobs@.len() > 0 ==> r == jobs,
        jobs@.len() == 0 ==> exists|now: Timestamp| now.wf() && is_sample_jobs(r@, now),
        ids_in_order(jobs@) ==> ids_in_order(r@),
{
    if jobs.len() == 0 {
        sample_jobs()
    } else {
        jobs
    }
}

} // verus!
