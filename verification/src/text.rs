//! Character-level text handling: the whitespace, trimming, splitting, joining
//! and replacing rules that the crontab, schedule and name logic is built on.
//! Every function is stated over `Seq<char>`, the view of `str` and `String`.

use vstd::prelude::*;

verus! {

broadcast use vstd::seq_lib::group_seq_properties;

/// Unicode `White_Space` characters, the set that `char::is_whitespace` tests.
pub open spec fn is_ws(c: char) -> bool {
    let u = c as u32;
    ||| 0x09 <= u <= 0x0D
    ||| u == 0x20
    ||| u == 0x85
    ||| u == 0xA0
    ||| u == 0x1680
    ||| 0x2000 <= u <= 0x200A
    ||| u == 0x2028
    ||| u == 0x2029
    ||| u == 0x202F
    ||| u == 0x205F
    ||| u == 0x3000
}

/// `is_ws` as a predicate value.
pub open spec fn ws_pred() -> spec_fn(char) -> bool {
    |c: char| is_ws(c)
}

/// The predicate "is one of the characters of `set`".
pub open spec fn in_set(set: Seq<char>) -> spec_fn(char) -> bool {
    |c: char| set.contains(c)
}

/// The views of a sequence of character vectors.
pub open spec fn views(vs: Seq<Vec<char>>) -> Seq<Seq<char>> {
    vs.map_values(|v: Vec<char>| v@)
}

/// The views of a sequence of strings.
pub open spec fn string_views(vs: Seq<String>) -> Seq<Seq<char>> {
    vs.map_values(|v: String| v@)
}

/// `s` cut at every character that satisfies `sep`, as `str::split` does: a string
/// with k separators gives k + 1 pieces, empty ones included.
pub open spec fn split_by(s: Seq<char>, sep: spec_fn(char) -> bool) -> Seq<Seq<char>>
    decreases s.len(),
{
    if s.len() == 0 {
        seq![Seq::<char>::empty()]
    } else {
        let init = split_by(s.drop_last(), sep);
        if sep(s.last()) {
            init.push(Seq::<char>::empty())
        } else {
            init.update(init.len() - 1, init.last().push(s.last()))
        }
    }
}

/// The pieces of `s` between whitespace, empty ones left out (`str::split_whitespace`).
pub open spec fn words(s: Seq<char>) -> Seq<Seq<char>> {
    split_by(s, ws_pred()).filter(|w: Seq<char>| w.len() > 0)
}

/// `s` without one final carriage return.
pub open spec fn strip_cr(l: Seq<char>) -> Seq<char> {
    if l.len() > 0 && l.last() == '\r' {
        l.drop_last()
    } else {
        l
    }
}

pub open spec fn strip_all_cr(ls: Seq<Seq<char>>) -> Seq<Seq<char>> {
    ls.map_values(|l: Seq<char>| strip_cr(l))
}

/// The lines of `s`, as `str::lines` gives them: cut at each `'\n'`, a `'\r'` just
/// before a `'\n'` dropped, and no empty last line after a final `'\n'`.
pub open spec fn lines(s: Seq<char>) -> Seq<Seq<char>> {
    let p = split_by(s, in_set(seq!['\n']));
    let body = strip_all_cr(p.drop_last());
    if p.last().len() == 0 {
        body
    } else {
        body.push(p.last())
    }
}

/// `s` without its leading whitespace.
pub open spec fn trim_start(s: Seq<char>) -> Seq<char>
    decreases s.len(),
{
    if s.len() > 0 && is_ws(s[0]) {
        trim_start(s.drop_first())
    } else {
        s
    }
}

/// `s` without its trailing whitespace.
pub open spec fn trim_end(s: Seq<char>) -> Seq<char>
    decreases s.len(),
{
    if s.len() > 0 && is_ws(s.last()) {
        trim_end(s.drop_last())
    } else {
        s
    }
}

/// `s` without leading and trailing whitespace (`str::trim`).
pub open spec fn trim(s: Seq<char>) -> Seq<char> {
    trim_end(trim_start(s))
}

/// The pieces joined with `sep` between each two (`[T]::join`).
pub open spec fn join_with(parts: Seq<Seq<char>>, sep: Seq<char>) -> Seq<char>
    decreases parts.len(),
{
    if parts.len() == 0 {
        Seq::<char>::empty()
    } else if parts.len() == 1 {
        parts[0]
    } else {
        join_with(parts.drop_last(), sep) + sep + parts.last()
    }
}

pub proof fn lemma_split_by_len(s: Seq<char>, sep: spec_fn(char) -> bool)
    ensures
        split_by(s, sep).len() >= 1,
    decreases s.len(),
{
    if s.len() > 0 {
        lemma_split_by_len(s.drop_last(), sep);
    }
}

/// Whether `c` is Unicode whitespace.
pub fn is_whitespace(c: char) -> (b: bool)
    ensures
        b == is_ws(c),
{
    let u = c as u32;
    (0x09 <= u && u <= 0x0D) || u == 0x20 || u == 0x85 || u == 0xA0 || u == 0x1680 || (0x2000
        <= u && u <= 0x200A) || u == 0x2028 || u == 0x2029 || u == 0x202F || u == 0x205F || u
        == 0x3000
}

/// The characters of `s`, in order.
pub fn chars_of(s: &str) -> (v: Vec<char>)
    ensures
        v@ == s@,
{
    let mut v: Vec<char> = Vec::new();
    for c in it: s.chars()
        invariant
            v@ == it.seq().take(it.index() as int),
    {
        v.push(c);
    }
    v
}

/// `s[from..to]` as a new vector.
pub fn sub_chars(s: &Vec<char>, from: usize, to: usize) -> (r: Vec<char>)
    requires
        from <= to <= s.len(),
    ensures
        r@ == s@.subrange(from as int, to as int),
{
    let mut r: Vec<char> = Vec::new();
    let mut i: usize = from;
    while i < to
        invariant
            from <= i <= to <= s.len(),
            r@ == s@.subrange(from as int, i as int),
        decreases to - i,
    {
        r.push(s[i]);
        i += 1;
    }
    r
}

/// Whether `c` occurs in `set`.
pub fn contains_char(set: &Vec<char>, c: char) -> (b: bool)
    ensures
        b == set@.contains(c),
{
    let mut i: usize = 0;
    while i < set.len()
        invariant
            0 <= i <= set.len(),
            forall|k: int| 0 <= k < i ==> set@[k] != c,
        decreases set.len() - i,
    {
        if set[i] == c {
            return true;
        }
        i += 1;
    }
    false
}

/// `s` cut at every character of `seps` (`str::split` with a set of characters).
pub fn split_on(s: &Vec<char>, seps: &Vec<char>) -> (parts: Vec<Vec<char>>)
    ensures
        views(parts@) == split_by(s@, in_set(seps@)),
{
    let mut parts: Vec<Vec<char>> = Vec::new();
    let mut cur: Vec<char> = Vec::new();
    let mut i: usize = 0;
    proof {
        assert(s@.take(0) =~= Seq::<char>::empty());
        assert(views(parts@).push(cur@) =~= seq![Seq::<char>::empty()]);
    }
    while i < s.len()
        invariant
            0 <= i <= s.len(),
            split_by(s@.take(i as int), in_set(seps@)) == views(parts@).push(cur@),
        decreases s.len() - i,
    {
        let c = s[i];
        let ghost before = views(parts@);
        let ghost old_cur = cur@;
        assert(s@.take(i + 1).drop_last() =~= s@.take(i as int));
        if contains_char(seps, c) {
            parts.push(cur);
            cur = Vec::new();
            assert(views(parts@) =~= before.push(old_cur));
        } else {
            cur.push(c);
            assert(views(parts@) == before);
            assert(before.push(old_cur).update(before.len() as int, old_cur.push(c)) =~= before.push(cur@));
        }
        i += 1;
    }
    assert(s@.take(s.len() as int) =~= s@);
    parts.push(cur);
    assert(views(parts@) =~= split_by(s@, in_set(seps@)));
    parts
}


/// The predicate "is not empty".
pub open spec fn nonempty_pred() -> spec_fn(Seq<char>) -> bool {
    |w: Seq<char>| w.len() > 0
}

/// The first character of `s` that satisfies `sep`, by index.
pub open spec fn first_index(s: Seq<char>, sep: spec_fn(char) -> bool) -> Option<int>
    decreases s.len(),
{
    if s.len() == 0 {
        None
    } else if sep(s[0]) {
        Some(0)
    } else {
        match first_index(s.drop_first(), sep) {
            Some(i) => Some(i + 1),
            None => None,
        }
    }
}

/// `s` cut at its first `n - 1` whitespace characters (`str::splitn(n, char::is_whitespace)`).
#[verifier::opaque]
pub open spec fn splitn_ws(s: Seq<char>, n: nat) -> Seq<Seq<char>>
    decreases n,
{
    if n <= 1 {
        seq![s]
    } else {
        match first_index(s, ws_pred()) {
            Some(i) => seq![s.take(i)] + splitn_ws(s.skip(i + 1), (n - 1) as nat),
            None => seq![s],
        }
    }
}

/// Whether `t` occurs in `s` (`str::contains` with a string pattern).
pub open spec fn contains_sub(s: Seq<char>, t: Seq<char>) -> bool {
    exists|i: int| 0 <= i <= s.len() - t.len() && #[trigger] s.subrange(i, i + t.len()) == t
}

/// `s` with every occurrence of `pat` replaced by `rep`, matches taken left to
/// right without overlap (`str::replace`); `pat` is not empty.
pub open spec fn replace_all(s: Seq<char>, pat: Seq<char>, rep: Seq<char>) -> Seq<char>
    recommends
        pat.len() > 0,
    decreases s.len(),
{
    if pat.len() == 0 || s.len() < pat.len() {
        s
    } else if s.take(pat.len() as int) == pat {
        rep + replace_all(s.skip(pat.len() as int), pat, rep)
    } else {
        seq![s[0]] + replace_all(s.drop_first(), pat, rep)
    }
}

/// `s` left-padded with `'0'` to at least two characters (`format!("{:0>2}", s)`).
pub open spec fn pad2(s: Seq<char>) -> Seq<char> {
    if s.len() == 0 {
        seq!['0', '0']
    } else if s.len() == 1 {
        seq!['0'] + s
    } else {
        s
    }
}

/// The decimal digit character of `d < 10`.
pub open spec fn digit_char(d: nat) -> char {
    (48 + d) as char
}

/// The decimal digits of `n`, most significant first, no leading zeros.
pub open spec fn nat_digits(n: nat) -> Seq<char>
    decreases n,
{
    if n < 10 {
        seq![digit_char(n)]
    } else {
        nat_digits(n / 10).push(digit_char(n % 10))
    }
}

/// `n` as `format!("{}", n)` writes an integer.
pub open spec fn decimal(n: int) -> Seq<char> {
    if n < 0 {
        seq!['-'] + nat_digits((-n) as nat)
    } else {
        nat_digits(n as nat)
    }
}

pub proof fn lemma_first_index_at(s: Seq<char>, sep: spec_fn(char) -> bool, i: int)
    requires
        0 <= i < s.len(),
        sep(s[i]),
        forall|k: int| 0 <= k < i ==> !sep(s[k]),
    ensures
        first_index(s, sep) == Some(i),
    decreases i,
{
    if i > 0 {
        lemma_first_index_at(s.drop_first(), sep, i - 1);
    }
}

pub proof fn lemma_first_index_none(s: Seq<char>, sep: spec_fn(char) -> bool)
    requires
        forall|k: int| 0 <= k < s.len() ==> !sep(s[k]),
    ensures
        first_index(s, sep) == None::<int>,
    decreases s.len(),
{
    if s.len() > 0 {
        lemma_first_index_none(s.drop_first(), sep);
    }
}

pub proof fn lemma_trim_start_at(s: Seq<char>, a: int)
    requires
        0 <= a <= s.len(),
        forall|k: int| 0 <= k < a ==> is_ws(s[k]),
        a == s.len() || !is_ws(s[a]),
    ensures
        trim_start(s) == s.skip(a),
    decreases a,
{
    if a == 0 {
        assert(s.skip(0) =~= s);
    } else {
        lemma_trim_start_at(s.drop_first(), a - 1);
        assert(s.drop_first().skip(a - 1) =~= s.skip(a));
    }
}

pub proof fn lemma_trim_end_at(s: Seq<char>, b: int)
    requires
        0 <= b <= s.len(),
        forall|k: int| b <= k < s.len() ==> is_ws(s[k]),
        b == 0 || !is_ws(s[b - 1]),
    ensures
        trim_end(s) == s.take(b),
    decreases s.len() - b,
{
    if b == s.len() {
        assert(s.take(b) =~= s);
    } else {
        lemma_trim_end_at(s.drop_last(), b);
        assert(s.drop_last().take(b) =~= s.take(b));
    }
}

/// `s` without leading and trailing whitespace.
pub fn trim_chars(s: &Vec<char>) -> (r: Vec<char>)
    ensures
        r@ == trim(s@),
{
    let n = s.len();
    let mut a: usize = 0;
    while a < n && is_whitespace(s[a])
        invariant
            0 <= a <= n == s.len(),
            forall|k: int| 0 <= k < a ==> is_ws(s@[k]),
        decreases n - a,
    {
        a += 1;
    }
    let mut b: usize = n;
    while b > a && is_whitespace(s[b - 1])
        invariant
            a <= b <= n == s.len(),
            forall|k: int| b <= k < n ==> is_ws(s@[k]),
        decreases b,
    {
        b -= 1;
    }
    proof {
        lemma_trim_start_at(s@, a as int);
        let t = s@.skip(a as int);
        lemma_trim_end_at(t, (b - a) as int);
        assert(t.take((b - a) as int) =~= s@.subrange(a as int, b as int));
    }
    sub_chars(s, a, b)
}

/// `s` cut at every whitespace character (`str::split(char::is_whitespace)`).
pub fn split_whitespace_all(s: &Vec<char>) -> (parts: Vec<Vec<char>>)
    ensures
        views(parts@) == split_by(s@, ws_pred()),
{
    let mut parts: Vec<Vec<char>> = Vec::new();
    let mut cur: Vec<char> = Vec::new();
    let mut i: usize = 0;
    proof {
        assert(s@.take(0) =~= Seq::<char>::empty());
        assert(views(parts@).push(cur@) =~= seq![Seq::<char>::empty()]);
    }
    while i < s.len()
        invariant
            0 <= i <= s.len(),
            split_by(s@.take(i as int), ws_pred()) == views(parts@).push(cur@),
        decreases s.len() - i,
    {
        let c = s[i];
        let ghost before = views(parts@);
        let ghost old_cur = cur@;
        assert(s@.take(i + 1).drop_last() =~= s@.take(i as int));
        if is_whitespace(c) {
            parts.push(cur);
            cur = Vec::new();
            assert(views(parts@) =~= before.push(old_cur));
        } else {
            cur.push(c);
            assert(views(parts@) == before);
            assert(before.push(old_cur).update(before.len() as int, old_cur.push(c)) =~= before.push(cur@));
        }
        i += 1;
    }
    assert(s@.take(s.len() as int) =~= s@);
    parts.push(cur);
    assert(views(parts@) =~= split_by(s@, ws_pred()));
    parts
}

/// The whitespace-separated words of `s` (`str::split_whitespace`).
pub fn words_of(s: &Vec<char>) -> (ws: Vec<Vec<char>>)
    ensures
        views(ws@) == words(s@),
{
    let parts = split_whitespace_all(s);
    let ghost pv = views(parts@);
    let mut ws: Vec<Vec<char>> = Vec::new();
    let mut i: usize = 0;
    proof {
        reveal(Seq::filter);
        assert(pv.take(0) =~= Seq::<Seq<char>>::empty());
        assert(views(ws@) =~= Seq::<Seq<char>>::empty());
    }
    while i < parts.len()
        invariant
            0 <= i <= parts.len(),
            pv == views(parts@),
            views(ws@) == pv.take(i as int).filter(nonempty_pred()),
        decreases parts.len() - i,
    {
        let ghost before = views(ws@);
        assert(pv.take(i + 1) =~= pv.take(i as int).push(pv[i as int]));
        proof { pv.take(i as int).lemma_filter_push(pv[i as int], nonempty_pred()); }
        if parts[i].len() > 0 {
            let w = sub_chars(&parts[i], 0, parts[i].len());
            assert(w@ =~= pv[i as int]);
            ws.push(w);
            assert(views(ws@) =~= before.push(w@));
        }
        i += 1;
    }
    assert(pv.take(parts.len() as int) =~= pv);
    ws
}

/// The lines of `s` (`str::lines`).
pub fn lines_of(s: &Vec<char>) -> (ls: Vec<Vec<char>>)
    ensures
        views(ls@) == lines(s@),
{
    let mut nl: Vec<char> = Vec::new();
    nl.push('\n');
    assert(nl@ =~= seq!['\n']);
    let parts = split_on(s, &nl);
    let ghost pv = views(parts@);
    proof {
        lemma_split_by_len(s@, in_set(seq!['\n']));
    }
    let n = parts.len();
    let mut ls: Vec<Vec<char>> = Vec::new();
    let mut i: usize = 0;
    while i + 1 < n
        invariant
            0 <= i < n == parts.len(),
            pv == views(parts@),
            views(ls@) == strip_all_cr(pv.take(i as int)),
        decreases n - i,
    {
        let p = &parts[i];
        let k = p.len();
        let line = if k > 0 && p[k - 1] == '\r' {
            sub_chars(p, 0, k - 1)
        } else {
            sub_chars(p, 0, k)
        };
        assert(line@ =~= strip_cr(pv[i as int]));
        let ghost before = views(ls@);
        ls.push(line);
        assert(views(ls@) =~= before.push(line@));
        assert(strip_all_cr(pv.take(i + 1)) =~= strip_all_cr(pv.take(i as int)).push(strip_cr(pv[i as int])));
        i += 1;
    }
    assert(pv.take((n - 1) as int) =~= pv.drop_last());
    if parts[n - 1].len() > 0 {
        let last = sub_chars(&parts[n - 1], 0, parts[n - 1].len());
        let ghost before = views(ls@);
        ls.push(last);
        assert(views(ls@) =~= before.push(pv.last()));
    }
    ls
}

/// The pieces joined with `sep` between each two.
pub fn join_chars(parts: &Vec<Vec<char>>, sep: &Vec<char>) -> (r: Vec<char>)
    ensures
        r@ == join_with(views(parts@), sep@),
{
    let ghost pv = views(parts@);
    let mut r: Vec<char> = Vec::new();
    let mut i: usize = 0;
    assert(pv.take(0) =~= Seq::<Seq<char>>::empty());
    while i < parts.len()
        invariant
            0 <= i <= parts.len(),
            pv == views(parts@),
            r@ == join_with(pv.take(i as int), sep@),
        decreases parts.len() - i,
    {
        let ghost before = r@;
        if i > 0 {
            append_vec(&mut r, sep);
        }
        append_vec(&mut r, &parts[i]);
        assert(pv.take(i + 1).drop_last() =~= pv.take(i as int));
        assert(pv.take(i + 1).last() == pv[i as int]);
        if i == 0 {
            assert(r@ =~= pv.take(1)[0]);
        }
        i += 1;
    }
    assert(pv.take(parts.len() as int) =~= pv);
    r
}

/// Appends the characters of `v` to `r`.
pub fn append_vec(r: &mut Vec<char>, v: &Vec<char>)
    ensures
        final(r)@ == old(r)@ + v@,
{
    let mut i: usize = 0;
    while i < v.len()
        invariant
            0 <= i <= v.len(),
            r@ == old(r)@ + v@.take(i as int),
        decreases v.len() - i,
    {
        r.push(v[i]);
        assert(v@.take(i + 1) =~= v@.take(i as int).push(v[i as int]));
        i += 1;
    }
    assert(v@.take(v.len() as int) =~= v@);
}


/// `String::push`: appends the character `c` to `s`.
#[verifier::external_body]
fn push_char(s: &mut String, c: char)
    ensures
        final(s)@ == old(s)@.push(c),
{
    s.push(c)
}

/// The string whose characters are those of `v`.
pub fn string_of(v: &Vec<char>) -> (s: String)
    ensures
        s@ == v@,
{
    let mut s = String::new();
    let mut i: usize = 0;
    while i < v.len()
        invariant
            0 <= i <= v.len(),
            s@ == v@.take(i as int),
        decreases v.len() - i,
    {
        push_char(&mut s, v[i]);
        assert(v@.take(i + 1) =~= v@.take(i as int).push(v[i as int]));
        i += 1;
    }
    assert(v@.take(v.len() as int) =~= v@);
    s
}

/// Whether `a` and `b` hold the same characters.
pub fn eq_chars(a: &Vec<char>, b: &Vec<char>) -> (r: bool)
    ensures
        r == (a@ == b@),
{
    if a.len() != b.len() {
        return false;
    }
    let mut i: usize = 0;
    while i < a.len()
        invariant
            0 <= i <= a.len() == b.len(),
            forall|k: int| 0 <= k < i ==> a@[k] == b@[k],
        decreases a.len() - i,
    {
        if a[i] != b[i] {
            return false;
        }
        i += 1;
    }
    assert(a@ =~= b@);
    true
}

/// Whether `t` occurs in `s` starting at index `i`.
pub fn occurs_at(s: &Vec<char>, t: &Vec<char>, i: usize) -> (r: bool)
    requires
        i + t.len() <= s.len(),
    ensures
        r == (s@.subrange(i as int, i + t.len()) == t@),
{
    let mut k: usize = 0;
    while k < t.len()
        invariant
            0 <= k <= t.len(),
            i + t.len() <= s.len(),
            forall|j: int| 0 <= j < k ==> s@[i + j] == t@[j],
        decreases t.len() - k,
    {
        if s[i + k] != t[k] {
            assert(s@.subrange(i as int, i + t.len())[k as int] != t@[k as int]);
            return false;
        }
        k += 1;
    }
    assert(s@.subrange(i as int, i + t.len()) =~= t@);
    true
}

/// Whether `t` occurs in `s`.
pub fn contains_chars(s: &Vec<char>, t: &Vec<char>) -> (r: bool)
    ensures
        r == contains_sub(s@, t@),
{
    if t.len() > s.len() {
        return false;
    }
    let last = s.len() - t.len();
    let mut i: usize = 0;
    loop
        invariant
            0 <= i <= last,
            last + t.len() == s.len(),
            forall|j: int| 0 <= j < i ==> #[trigger] s@.subrange(j, j + t.len()) != t@,
        decreases last - i,
    {
        if occurs_at(s, t, i) {
            return true;
        }
        if i == last {
            return false;
        }
        i += 1;
    }
}

/// `s` with every occurrence of `pat` replaced by `rep`.
pub fn replace_chars(s: &Vec<char>, pat: &Vec<char>, rep: &Vec<char>) -> (r: Vec<char>)
    requires
        pat.len() > 0,
    ensures
        r@ == replace_all(s@, pat@, rep@),
{
    let mut r: Vec<char> = Vec::new();
    let mut i: usize = 0;
    assert(s@.skip(0) =~= s@);
    while i < s.len()
        invariant
            0 <= i <= s.len(),
            pat.len() > 0,
            r@ + replace_all(s@.skip(i as int), pat@, rep@) == replace_all(s@, pat@, rep@),
        decreases s.len() - i,
    {
        let ghost t = s@.skip(i as int);
        let ghost before = r@;
        if s.len() - i < pat.len() {
            let rest = sub_chars(s, i, s.len());
            append_vec(&mut r, &rest);
            assert(rest@ =~= t);
            assert(r@ =~= before + t);
            assert(s@.skip(s.len() as int) =~= Seq::<char>::empty());
            assert(replace_all(Seq::<char>::empty(), pat@, rep@) == Seq::<char>::empty());
            assert(r@ + replace_all(s@.skip(s.len() as int), pat@, rep@) =~= r@);
            i = s.len();
        } else if occurs_at(s, pat, i) {
            append_vec(&mut r, rep);
            assert(t.take(pat.len() as int) =~= s@.subrange(i as int, i + pat.len()));
            assert(t.skip(pat.len() as int) =~= s@.skip(i + pat.len()));
            assert(before + replace_all(t, pat@, rep@) =~= r@ + replace_all(s@.skip(i + pat.len()), pat@, rep@));
            i += pat.len();
        } else {
            r.push(s[i]);
            assert(t.take(pat.len() as int) =~= s@.subrange(i as int, i + pat.len()));
            assert(t.drop_first() =~= s@.skip(i + 1));
            assert(before + replace_all(t, pat@, rep@) =~= r@ + replace_all(s@.skip(i + 1), pat@, rep@));
            i += 1;
        }
    }
    assert(s@.skip(s.len() as int) =~= Seq::<char>::empty());
    assert(r@ + replace_all(Seq::<char>::empty(), pat@, rep@) =~= r@);
    r
}

/// `s` left-padded with `'0'` to two characters.
pub fn pad2_chars(s: &Vec<char>) -> (r: Vec<char>)
    ensures
        r@ == pad2(s@),
{
    let mut r: Vec<char> = Vec::new();
    if s.len() == 0 {
        r.push('0');
        r.push('0');
        assert(r@ =~= seq!['0', '0']);
    } else if s.len() == 1 {
        r.push('0');
        r.push(s[0]);
        assert(r@ =~= seq!['0'] + s@);
    } else {
        append_vec(&mut r, s);
        assert(r@ =~= s@);
    }
    r
}

fn digit(d: u8) -> (c: char)
    requires
        d < 10,
    ensures
        c == digit_char(d as nat),
{
    (48u8 + d) as char
}

/// The decimal digits of `n`.
pub fn nat_digits_of(n: u128) -> (r: Vec<char>)
    ensures
        r@ == nat_digits(n as nat),
    decreases n,
{
    if n < 10 {
        let mut v: Vec<char> = Vec::new();
        v.push(digit(n as u8));
        assert(v@ =~= seq![digit_char(n as nat)]);
        v
    } else {
        let mut v = nat_digits_of(n / 10);
        v.push(digit((n % 10) as u8));
        v
    }
}

/// `n` written in decimal, with a `'-'` when negative.
pub fn decimal_of(n: i64) -> (r: Vec<char>)
    ensures
        r@ == decimal(n as int),
{
    if n < 0 {
        let m: i128 = -(n as i128);
        let mut r: Vec<char> = Vec::new();
        r.push('-');
        let d = nat_digits_of(m as u128);
        append_vec(&mut r, &d);
        assert(r@ =~= seq!['-'] + nat_digits((-n) as nat));
        r
    } else {
        nat_digits_of(n as u128)
    }
}

proof fn lemma_splitn_step(s: Seq<char>, pos: int, j: int, m: nat)
    requires
        0 <= pos <= j < s.len(),
        forall|k: int| pos <= k < j ==> !is_ws(s[k]),
        is_ws(s[j]),
        m >= 2,
    ensures
        splitn_ws(s.skip(pos), m) == seq![s.subrange(pos, j)] + splitn_ws(s.skip(j + 1), (m - 1) as nat),
{
    reveal(splitn_ws);
    let t = s.skip(pos);
    lemma_first_index_at(t, ws_pred(), j - pos);
    assert(t.take(j - pos) =~= s.subrange(pos, j));
    assert(t.skip(j - pos + 1) =~= s.skip(j + 1));
}

proof fn lemma_splitn_last(s: Seq<char>, pos: int, m: nat)
    requires
        0 <= pos <= s.len(),
        m <= 1 || forall|k: int| pos <= k < s.len() ==> !is_ws(s[k]),
    ensures
        splitn_ws(s.skip(pos), m) == seq![s.skip(pos)],
{
    reveal(splitn_ws);
    if m > 1 {
        lemma_first_index_none(s.skip(pos), ws_pred());
    }
}

/// `s` cut at its first `n - 1` whitespace characters.
pub fn splitn_whitespace(s: &Vec<char>, n: usize) -> (parts: Vec<Vec<char>>)
    requires
        n >= 1,
    ensures
        views(parts@) == splitn_ws(s@, n as nat),
{
    let mut parts: Vec<Vec<char>> = Vec::new();
    let mut pos: usize = 0;
    assert(s@.skip(0) =~= s@);
    assert(views(parts@) =~= Seq::<Seq<char>>::empty());
    let mut done = false;
    while !done
        invariant
            0 <= pos <= s.len(),
            parts.len() < n,
            splitn_ws(s@, n as nat) == views(parts@) + splitn_ws(s@.skip(pos as int), (n - parts.len()) as nat),
            done ==> splitn_ws(s@.skip(pos as int), (n - parts.len()) as nat) == seq![s@.skip(pos as int)],
        decreases s.len() - pos + (if done { 0int } else { 1int }),
    {
        if parts.len() + 1 >= n {
            proof {
                lemma_splitn_last(s@, pos as int, (n - parts.len()) as nat);
            }
            done = true;
        } else {
            let mut j: usize = pos;
            while j < s.len() && !is_whitespace(s[j])
                invariant
                    pos <= j <= s.len(),
                    forall|k: int| pos <= k < j ==> !is_ws(s@[k]),
                decreases s.len() - j,
            {
                j += 1;
            }
            if j == s.len() {
                proof {
                    lemma_splitn_last(s@, pos as int, (n - parts.len()) as nat);
                }
                done = true;
            } else {
                proof {
                    lemma_splitn_step(s@, pos as int, j as int, (n - parts.len()) as nat);
                }
                let piece = sub_chars(s, pos, j);
                let ghost before = views(parts@);
                parts.push(piece);
                assert(views(parts@) =~= before.push(piece@));
                assert(before + (seq![piece@] + splitn_ws(s@.skip(j + 1), (n - parts.len()) as nat))
                    =~= views(parts@) + splitn_ws(s@.skip(j + 1), (n - parts.len()) as nat));
                pos = j + 1;
            }
        }
    }
    let rest = sub_chars(s, pos, s.len());
    let ghost before = views(parts@);
    assert(rest@ =~= s@.skip(pos as int));
    parts.push(rest);
    assert(views(parts@) =~= before.push(rest@));
    assert(before + seq![rest@] =~= views(parts@));
    parts
}


pub proof fn lemma_split_append_plain(s: Seq<char>, t: Seq<char>, sep: spec_fn(char) -> bool)
    requires
        forall|k: int| 0 <= k < t.len() ==> !sep(#[trigger] t[k]),
    ensures
        ({
            let init = split_by(s, sep);
            split_by(s + t, sep) == init.update(init.len() - 1, init.last() + t)
        }),
    decreases t.len(),
{
    lemma_split_by_len(s, sep);
    let init = split_by(s, sep);
    if t.len() == 0 {
        assert(s + t =~= s);
        assert(init.update(init.len() - 1, init.last() + t) =~= init);
    } else {
        let t2 = t.drop_last();
        lemma_split_append_plain(s, t2, sep);
        assert((s + t).drop_last() =~= s + t2);
        assert((s + t).last() == t.last());
        let mid = split_by(s + t2, sep);
        assert(mid =~= init.update(init.len() - 1, init.last() + t2));
        assert((init.last() + t2).push(t.last()) =~= init.last() + t);
        assert(mid.update(mid.len() - 1, mid.last().push(t.last())) =~= init.update(
            init.len() - 1,
            init.last() + t,
        ));
    }
}

pub proof fn lemma_split_push_sep(s: Seq<char>, c: char, sep: spec_fn(char) -> bool)
    requires
        sep(c),
    ensures
        split_by(s.push(c), sep) == split_by(s, sep).push(Seq::<char>::empty()),
{
    assert(s.push(c).drop_last() =~= s);
}

/// Splitting the pieces joined with a separator character that none of them
/// holds gives back the pieces.
pub proof fn lemma_split_join(ls: Seq<Seq<char>>, c: char)
    requires
        ls.len() >= 1,
        forall|i: int| 0 <= i < ls.len() ==> !(#[trigger] ls[i]).contains(c),
    ensures
        split_by(join_with(ls, seq![c]), in_set(seq![c])) == ls,
    decreases ls.len(),
{
    let sep = in_set(seq![c]);
    let l = ls.last();
    assert forall|k: int| 0 <= k < l.len() implies !sep(#[trigger] l[k]) by {
        assert(seq![c].contains(l[k]) ==> l[k] == c);
        if l[k] == c {
            assert(ls[ls.len() - 1].contains(c));
        }
    }
    if ls.len() == 1 {
        lemma_split_append_plain(Seq::<char>::empty(), l, sep);
        assert(Seq::<char>::empty() + l =~= l);
        assert(split_by(Seq::<char>::empty(), sep) =~= seq![Seq::<char>::empty()]);
        assert(seq![Seq::<char>::empty()].update(0, Seq::<char>::empty() + l) =~= ls);
    } else {
        let init = ls.drop_last();
        assert forall|i: int| 0 <= i < init.len() implies !(#[trigger] init[i]).contains(c) by {
            assert(init[i] == ls[i]);
        }
        lemma_split_join(init, c);
        let j = join_with(init, seq![c]);
        assert(seq![c].contains(c));
        lemma_split_push_sep(j, c, sep);
        assert(j + seq![c] =~= j.push(c));
        lemma_split_append_plain(j + seq![c], l, sep);
        let mid = split_by(j + seq![c], sep);
        assert(mid =~= init.push(Seq::<char>::empty()));
        assert(Seq::<char>::empty() + l =~= l);
        assert(mid.update(mid.len() - 1, mid.last() + l) =~= ls);
    }
}

/// The lines of newline-terminated lines that hold no newline and do not end in a
/// carriage return are those lines.
pub proof fn lemma_lines_of_joined(ls: Seq<Seq<char>>)
    requires
        ls.len() >= 1,
        forall|i: int| 0 <= i < ls.len() ==> !(#[trigger] ls[i]).contains('\n'),
        forall|i: int|
            0 <= i < ls.len() ==> !((#[trigger] ls[i]).len() > 0 && ls[i].last() == '\r'),
    ensures
        lines(join_with(ls, seq!['\n']) + seq!['\n']) == ls,
{
    let j = join_with(ls, seq!['\n']);
    lemma_split_join(ls, '\n');
    assert(seq!['\n'].contains('\n'));
    lemma_split_push_sep(j, '\n', in_set(seq!['\n']));
    assert(j + seq!['\n'] =~= j.push('\n'));
    let p = split_by(j + seq!['\n'], in_set(seq!['\n']));
    assert(p =~= ls.push(Seq::<char>::empty()));
    assert(p.drop_last() =~= ls);
    assert(strip_all_cr(ls) =~= ls);
}

/// The pieces of a split hold no separator.
pub proof fn lemma_split_parts_free(s: Seq<char>, sep: spec_fn(char) -> bool)
    ensures
        forall|i: int, k: int|
            0 <= i < split_by(s, sep).len() && 0 <= k < split_by(s, sep)[i].len() ==> !sep(
                #[trigger] split_by(s, sep)[i][k],
            ),
    decreases s.len(),
{
    if s.len() > 0 {
        lemma_split_parts_free(s.drop_last(), sep);
        lemma_split_by_len(s.drop_last(), sep);
    }
}

/// A property of every character of a text holds of every character of its pieces.
pub proof fn lemma_split_parts_keep(s: Seq<char>, sep: spec_fn(char) -> bool, p: spec_fn(char) -> bool)
    requires
        forall|k: int| 0 <= k < s.len() ==> p(#[trigger] s[k]),
    ensures
        forall|i: int, k: int|
            0 <= i < split_by(s, sep).len() && 0 <= k < split_by(s, sep)[i].len() ==> p(
                #[trigger] split_by(s, sep)[i][k],
            ),
    decreases s.len(),
{
    if s.len() > 0 {
        let t = s.drop_last();
        assert forall|k: int| 0 <= k < t.len() implies p(#[trigger] t[k]) by {
            assert(t[k] == s[k]);
        }
        lemma_split_parts_keep(t, sep, p);
        lemma_split_by_len(t, sep);
        assert(p(s[s.len() - 1]));
    }
}

/// A property of every character of a text holds of every character left once
/// every occurrence of a pattern is taken out.
pub proof fn lemma_remove_keep(s: Seq<char>, pat: Seq<char>, p: spec_fn(char) -> bool)
    requires
        forall|k: int| 0 <= k < s.len() ==> p(#[trigger] s[k]),
    ensures
        forall|k: int|
            0 <= k < replace_all(s, pat, Seq::<char>::empty()).len() ==> p(
                #[trigger] replace_all(s, pat, Seq::<char>::empty())[k],
            ),
    decreases s.len(),
{
    if pat.len() == 0 || s.len() < pat.len() {
    } else if s.take(pat.len() as int) == pat {
        let t = s.skip(pat.len() as int);
        assert forall|k: int| 0 <= k < t.len() implies p(#[trigger] t[k]) by {
            assert(t[k] == s[k + pat.len()]);
        }
        lemma_remove_keep(t, pat, p);
        assert(replace_all(s, pat, Seq::<char>::empty()) =~= replace_all(t, pat, Seq::<char>::empty()));
    } else {
        let t = s.drop_first();
        assert forall|k: int| 0 <= k < t.len() implies p(#[trigger] t[k]) by {
            assert(t[k] == s[k + 1]);
        }
        lemma_remove_keep(t, pat, p);
        let r = replace_all(t, pat, Seq::<char>::empty());
        assert forall|k: int| 0 <= k < (seq![s[0]] + r).len() implies p(#[trigger] (seq![s[0]] + r)[k]) by {
            if k > 0 {
                assert((seq![s[0]] + r)[k] == r[k - 1]);
            }
        }
    }
}

/// A property of every piece holds of every piece a filter keeps.
pub proof fn lemma_filter_keep(
    ss: Seq<Seq<char>>,
    f: spec_fn(Seq<char>) -> bool,
    q: spec_fn(Seq<char>) -> bool,
)
    requires
        forall|i: int| 0 <= i < ss.len() ==> q(#[trigger] ss[i]),
    ensures
        forall|i: int| 0 <= i < ss.filter(f).len() ==> q(#[trigger] ss.filter(f)[i]),
    decreases ss.len(),
{
    reveal(Seq::filter);
    if ss.len() > 0 {
        let t = ss.drop_last();
        assert forall|i: int| 0 <= i < t.len() implies q(#[trigger] t[i]) by {
            assert(t[i] == ss[i]);
        }
        lemma_filter_keep(t, f, q);
        let sub = t.filter(f);
        assert(q(ss.last()));
        if f(ss.last()) {
            assert(ss.filter(f) == sub.push(ss.last()));
        } else {
            assert(ss.filter(f) == sub);
        }
        assert forall|i: int| 0 <= i < ss.filter(f).len() implies q(#[trigger] ss.filter(f)[i]) by {
            if i < sub.len() {
                assert(ss.filter(f)[i] == sub[i]);
            }
        }
    }
}

proof fn lemma_trim_start_ws_last(x: Seq<char>)
    requires
        x.len() > 0,
        is_ws(x.last()),
    ensures
        (trim_start(x).len() == 0 && trim_start(x.drop_last()).len() == 0) || trim_start(x) == trim_start(
            x.drop_last(),
        ).push(x.last()),
    decreases x.len(),
{
    if is_ws(x[0]) {
        if x.len() > 1 {
            let y = x.drop_first();
            lemma_trim_start_ws_last(y);
            assert(x.drop_last().drop_first() =~= y.drop_last());
            assert(x.drop_last()[0] == x[0]);
        } else {
            assert(x.drop_first().len() == 0);
            assert(x.drop_last().len() == 0);
        }
    } else {
        assert(x.drop_last()[0] == x[0]);
        assert(x.drop_last().push(x.last()) =~= x);
    }
}

/// Whitespace at the end of a text does not change its trim.
proof fn lemma_trim_ws_last(x: Seq<char>)
    requires
        x.len() > 0,
        is_ws(x.last()),
    ensures
        trim(x) == trim(x.drop_last()),
{
    lemma_trim_start_ws_last(x);
    if trim_start(x).len() > 0 || trim_start(x.drop_last()).len() > 0 {
        let y = trim_start(x.drop_last());
        assert(y.push(x.last()).drop_last() =~= y);
    }
}

/// Trimming a text whose end was trimmed already gives its trim.
pub proof fn lemma_trim_of_trim_end(x: Seq<char>)
    ensures
        trim(trim_end(x)) == trim(x),
    decreases x.len(),
{
    if x.len() > 0 && is_ws(x.last()) {
        lemma_trim_of_trim_end(x.drop_last());
        lemma_trim_ws_last(x);
    }
}

/// A `'#'` in front of a text stays in front of its trim, whose end is the text's
/// trimmed end.
pub proof fn lemma_trim_behind(c: char, x: Seq<char>)
    requires
        !is_ws(c),
    ensures
        trim(seq![c] + x) == seq![c] + trim_end(x),
    decreases x.len(),
{
    assert((seq![c] + x)[0] == c);
    if x.len() > 0 && is_ws(x.last()) {
        lemma_trim_behind(c, x.drop_last());
        assert((seq![c] + x).drop_last() =~= seq![c] + x.drop_last());
        assert((seq![c] + x).last() == x.last());
        assert(trim_start(seq![c] + x.drop_last()) == seq![c] + x.drop_last());
    } else {
        assert((seq![c] + x).last() == if x.len() > 0 { x.last() } else { c });
    }
}

pub proof fn lemma_join_front(f: Seq<Seq<char>>, sep: Seq<char>)
    requires
        f.len() >= 2,
    ensures
        join_with(f, sep) == f[0] + sep + join_with(f.drop_first(), sep),
    decreases f.len(),
{
    let g = f.drop_first();
    if f.len() == 2 {
        assert(f.drop_last() =~= seq![f[0]]);
        assert(g =~= seq![f[1]]);
        assert(join_with(f.drop_last(), sep) == f[0]);
        assert(join_with(g, sep) == f[1]);
        assert(join_with(f, sep) == join_with(f.drop_last(), sep) + sep + f.last());
    } else {
        let h = f.drop_last();
        lemma_join_front(h, sep);
        assert(h.drop_first() =~= g.drop_last());
        assert(g.last() == f.last());
        assert(h[0] == f[0]);
        assert(join_with(f, sep) == join_with(h, sep) + sep + f.last());
        assert(join_with(g, sep) == join_with(g.drop_last(), sep) + sep + g.last());
        assert(join_with(f, sep) =~= f[0] + sep + join_with(g, sep));
    }
}

/// A character in joined pieces is in one of the pieces or in the separator.
pub proof fn lemma_join_free(f: Seq<Seq<char>>, sep: Seq<char>, c: char)
    requires
        forall|i: int| 0 <= i < f.len() ==> !(#[trigger] f[i]).contains(c),
        !sep.contains(c),
    ensures
        !join_with(f, sep).contains(c),
    decreases f.len(),
{
    if f.len() > 1 {
        let init = f.drop_last();
        assert forall|i: int| 0 <= i < init.len() implies !(#[trigger] init[i]).contains(c) by {
            assert(init[i] == f[i]);
        }
        lemma_join_free(init, sep, c);
        let j = join_with(init, sep);
        let l = f.last();
        assert(!l.contains(c)) by {
            assert(f[f.len() - 1] == l);
        }
        if (j + sep + l).contains(c) {
            let k = choose|k: int| 0 <= k < (j + sep + l).len() && (j + sep + l)[k] == c;
            if k < j.len() {
                assert(j[k] == c);
            } else if k < j.len() + sep.len() {
                assert(sep[k - j.len()] == c);
            } else {
                assert(l[k - j.len() - sep.len()] == c);
            }
        }
    } else if f.len() == 1 {
        assert(!f[0].contains(c));
    }
}

/// Cutting the whitespace-free pieces joined with spaces and followed by a space
/// and a tail, at their whitespace, gives the pieces and the tail.
pub proof fn lemma_splitn_join(f: Seq<Seq<char>>, c: Seq<char>)
    requires
        f.len() >= 1,
        forall|i: int, k: int|
            0 <= i < f.len() && 0 <= k < f[i].len() ==> !is_ws(#[trigger] f[i][k]),
    ensures
        splitn_ws(join_with(f, seq![' ']) + seq![' '] + c, (f.len() + 1) as nat) == f.push(c),
    decreases f.len(),
{
    reveal(splitn_ws);
    let x = join_with(f, seq![' ']) + seq![' '] + c;
    let f0 = f[0];
    let rest = if f.len() == 1 {
        c
    } else {
        join_with(f.drop_first(), seq![' ']) + seq![' '] + c
    };
    if f.len() >= 2 {
        lemma_join_front(f, seq![' ']);
    }
    assert(x =~= f0 + seq![' '] + rest);
    assert forall|k: int| 0 <= k < f0.len() implies !ws_pred()(x[k]) by {
        assert(x[k] == f[0][k]);
    }
    assert(x[f0.len() as int] == ' ');
    lemma_first_index_at(x, ws_pred(), f0.len() as int);
    assert(x.take(f0.len() as int) =~= f0);
    assert(x.skip(f0.len() as int + 1) =~= rest);
    let n = (f.len() + 1) as nat;
    assert(splitn_ws(x, n) == seq![x.take(f0.len() as int)] + splitn_ws(x.skip(f0.len() as int + 1), (n - 1) as nat));
    if f.len() == 1 {
        assert(splitn_ws(c, 1) == seq![c]);
        assert(f.push(c) =~= seq![f0] + seq![c]);
    } else {
        let g = f.drop_first();
        assert forall|i: int, k: int| 0 <= i < g.len() && 0 <= k < g[i].len() implies !is_ws(
            #[trigger] g[i][k],
        ) by {
            assert(g[i] == f[i + 1]);
        }
        lemma_splitn_join(g, c);
        assert(f.push(c) =~= seq![f0] + g.push(c));
    }
}

/// A string that neither starts nor ends with whitespace is its own trim.
pub proof fn lemma_trim_unchanged(x: Seq<char>)
    requires
        x.len() > 0,
        !is_ws(x[0]),
        !is_ws(x.last()),
    ensures
        trim(x) == x,
{
    lemma_trim_start_at(x, 0);
    assert(x.skip(0) =~= x);
    lemma_trim_end_at(x, x.len() as int);
    assert(x.take(x.len() as int) =~= x);
}

/// One leading space more does not change the trim.
pub proof fn lemma_trim_space(x: Seq<char>)
    requires
        x.len() > 0,
        !is_ws(x[0]),
        !is_ws(x.last()),
    ensures
        trim(seq![' '] + x) == x,
{
    let y = seq![' '] + x;
    lemma_trim_start_at(y, 1);
    assert(y.skip(1) =~= x);
    lemma_trim_end_at(x, x.len() as int);
    assert(x.take(x.len() as int) =~= x);
}


/// Splitting the pieces joined with a separator character, at the characters of a
/// class that holds the separator and no character of the pieces, gives back the
/// pieces.
pub proof fn lemma_split_join_pred(ls: Seq<Seq<char>>, c: char, sep: spec_fn(char) -> bool)
    requires
        ls.len() >= 1,
        sep(c),
        forall|i: int, k: int| 0 <= i < ls.len() && 0 <= k < ls[i].len() ==> !sep(#[trigger] ls[i][k]),
    ensures
        split_by(join_with(ls, seq![c]), sep) == ls,
    decreases ls.len(),
{
    let l = ls.last();
    assert forall|k: int| 0 <= k < l.len() implies !sep(#[trigger] l[k]) by {
        assert(l[k] == ls[ls.len() - 1][k]);
    }
    if ls.len() == 1 {
        lemma_split_append_plain(Seq::<char>::empty(), l, sep);
        assert(Seq::<char>::empty() + l =~= l);
        assert(split_by(Seq::<char>::empty(), sep) =~= seq![Seq::<char>::empty()]);
        assert(seq![Seq::<char>::empty()].update(0, Seq::<char>::empty() + l) =~= ls);
    } else {
        let init = ls.drop_last();
        assert forall|i: int, k: int| 0 <= i < init.len() && 0 <= k < init[i].len() implies !sep(
            #[trigger] init[i][k],
        ) by {
            assert(init[i] == ls[i]);
        }
        lemma_split_join_pred(init, c, sep);
        let j = join_with(init, seq![c]);
        lemma_split_push_sep(j, c, sep);
        assert(j + seq![c] =~= j.push(c));
        lemma_split_append_plain(j + seq![c], l, sep);
        let mid = split_by(j + seq![c], sep);
        assert(mid =~= init.push(Seq::<char>::empty()));
        assert(Seq::<char>::empty() + l =~= l);
        assert(mid.update(mid.len() - 1, mid.last() + l) =~= ls);
    }
}

/// A split into one piece leaves the text whole.
pub proof fn lemma_split_single(s: Seq<char>, sep: spec_fn(char) -> bool)
    requires
        split_by(s, sep).len() == 1,
    ensures
        split_by(s, sep)[0] == s,
    decreases s.len(),
{
    if s.len() > 0 {
        lemma_split_by_len(s.drop_last(), sep);
        lemma_split_single(s.drop_last(), sep);
        assert(s.drop_last().push(s.last()) =~= s);
    }
}

/// Text that is not empty has at least one line.
pub proof fn lemma_lines_nonempty(s: Seq<char>)
    requires
        s.len() > 0,
    ensures
        lines(s).len() > 0,
{
    let p = split_by(s, in_set(seq!['\n']));
    lemma_split_by_len(s, in_set(seq!['\n']));
    if p.len() == 1 {
        lemma_split_single(s, in_set(seq!['\n']));
    }
}

/// No line holds a newline.
pub proof fn lemma_lines_free(s: Seq<char>)
    ensures
        forall|i: int| 0 <= i < lines(s).len() ==> !(#[trigger] lines(s)[i]).contains('\n'),
{
    let nl = in_set(seq!['\n']);
    let p = split_by(s, nl);
    lemma_split_by_len(s, nl);
    lemma_split_parts_free(s, nl);
    assert(seq!['\n'].contains('\n'));
    assert forall|i: int| 0 <= i < lines(s).len() implies !(#[trigger] lines(s)[i]).contains('\n') by {
        let l = lines(s)[i];
        assert forall|k: int| 0 <= k < p[i].len() implies p[i][k] != '\n' by {
            assert(!nl(p[i][k]));
        }
        if l.contains('\n') {
            let k = choose|k: int| 0 <= k < l.len() && l[k] == '\n';
            if i < p.len() - 1 {
                assert(l == strip_cr(p[i]));
                assert(l[k] == p[i][k]);
            } else {
                assert(l == p[i]);
            }
        }
    }
}

pub proof fn lemma_first_index_props(s: Seq<char>, sep: spec_fn(char) -> bool)
    ensures
        match first_index(s, sep) {
            Some(i) => 0 <= i < s.len() && sep(s[i]) && forall|k: int| 0 <= k < i ==> !sep(#[trigger] s[k]),
            None => forall|k: int| 0 <= k < s.len() ==> !sep(#[trigger] s[k]),
        },
    decreases s.len(),
{
    if s.len() > 0 {
        lemma_first_index_props(s.drop_first(), sep);
        if !sep(s[0]) {
            assert forall|k: int| 1 <= k < s.len() implies s[k] == s.drop_first()[k - 1] by {}
        }
    }
}

/// One step of a `splitn` on whitespace.
proof fn lemma_splitn_unfold(t: Seq<char>, n: nat)
    requires
        n >= 1,
    ensures
        n == 1 || first_index(t, ws_pred()) is None ==> splitn_ws(t, n) == seq![t],
        n > 1 && first_index(t, ws_pred()) is Some ==> {
            let i = first_index(t, ws_pred())->0;
            &&& 0 <= i < t.len()
            &&& is_ws(t[i])
            &&& forall|k: int| 0 <= k < i ==> !is_ws(#[trigger] t[k])
            &&& splitn_ws(t, n) == seq![t.take(i)] + splitn_ws(t.skip(i + 1), (n - 1) as nat)
        },
{
    reveal(splitn_ws);
    lemma_first_index_props(t, ws_pred());
}

/// The shape of a `splitn` on whitespace: every piece but the last is free of
/// whitespace; the first piece starts the text, followed by whitespace when there
/// are more; the last piece ends the text, preceded by whitespace when there are
/// more; and every character of a piece is a character of the text.
#[verifier::spinoff_prover]
pub proof fn lemma_splitn_shape(t: Seq<char>, n: nat)
    requires
        n >= 1,
    ensures
        ({
            let p = splitn_ws(t, n);
            &&& 1 <= p.len() <= n
            &&& forall|i: int, k: int|
                0 <= i < p.len() - 1 && 0 <= k < p[i].len() ==> !is_ws(#[trigger] p[i][k])
            &&& p.len() == 1 ==> p[0] == t
            &&& p.len() >= 2 ==> p[0].len() < t.len() && t.take(p[0].len() as int) == p[0] && is_ws(
                t[p[0].len() as int],
            )
            &&& p.last().len() <= t.len()
            &&& t.skip(t.len() - p.last().len()) == p.last()
            &&& p.len() >= 2 ==> p.last().len() < t.len() && is_ws(t[t.len() - p.last().len() - 1])
            &&& forall|x: char| !t.contains(x) ==> forall|i: int| 0 <= i < p.len() ==> !(#[trigger] p[i]).contains(x)
        }),
    decreases n,
{
    lemma_splitn_unfold(t, n);
    lemma_splitn_chars(t, n);
    assert(t.skip(0) =~= t);
    if n > 1 && first_index(t, ws_pred()) is Some {
        let i = first_index(t, ws_pred())->0;
        let u = t.skip(i + 1);
        lemma_splitn_shape(u, (n - 1) as nat);
        let q = splitn_ws(u, (n - 1) as nat);
        let p = splitn_ws(t, n);
        assert forall|j: int, k: int| 0 <= j < p.len() - 1 && 0 <= k < p[j].len() implies !is_ws(
            #[trigger] p[j][k],
        ) by {
            if j == 0 {
                assert(p[0][k] == t[k]);
            } else {
                assert(p[j] == q[j - 1]);
            }
        }
        assert(p.last() == q.last());
        assert(t.skip(t.len() - q.last().len()) =~= u.skip(u.len() - q.last().len()));
        if q.len() >= 2 {
            assert(t[t.len() - q.last().len() - 1] == u[u.len() - q.last().len() - 1]);
        } else {
            assert(q[0] == u);
            assert(t[t.len() - q.last().len() - 1] == t[i]);
        }
        assert(t.take(i).len() == i);
    }
}

/// Every character of a `splitn` piece is a character of the text.
proof fn lemma_splitn_chars(t: Seq<char>, n: nat)
    requires
        n >= 1,
    ensures
        forall|x: char| !t.contains(x) ==> forall|i: int| 0 <= i < splitn_ws(t, n).len() ==> !(#[trigger] splitn_ws(t, n)[i]).contains(x),
    decreases n,
{
    reveal(splitn_ws);
    assert(t.skip(0) =~= t);
    if n > 1 {
        match first_index(t, ws_pred()) {
            Some(i) => {
                lemma_first_index_props(t, ws_pred());
                let u = t.skip(i + 1);
                lemma_splitn_chars(u, (n - 1) as nat);
                let q = splitn_ws(u, (n - 1) as nat);
                let p = splitn_ws(t, n);
                assert(p == seq![t.take(i)] + q);
                assert forall|x: char| !t.contains(x) implies forall|j: int| 0 <= j < p.len() ==> !(#[trigger] p[j]).contains(x) by {
                    assert forall|j: int| 0 <= j < p.len() implies !(#[trigger] p[j]).contains(x) by {
                        if p[j].contains(x) {
                            let k = choose|k: int| 0 <= k < p[j].len() && p[j][k] == x;
                            if j == 0 {
                                assert(t[k] == x);
                            } else {
                                assert(p[j] == q[j - 1]);
                                if u.contains(x) {
                                    let m = choose|m: int| 0 <= m < u.len() && u[m] == x;
                                    assert(t[m + i + 1] == x);
                                }
                            }
                        }
                    }
                }
            },
            None => {},
        }
    }
}

proof fn lemma_trim_start_props(s: Seq<char>)
    ensures
        trim_start(s).len() <= s.len(),
        s.skip(s.len() - trim_start(s).len()) == trim_start(s),
        trim_start(s).len() == 0 || !is_ws(trim_start(s)[0]),
    decreases s.len(),
{
    if s.len() > 0 && is_ws(s[0]) {
        lemma_trim_start_props(s.drop_first());
        let t = trim_start(s.drop_first());
        assert(s.skip(s.len() - t.len()) =~= s.drop_first().skip(s.drop_first().len() - t.len()));
    } else {
        assert(s.skip(0) =~= s);
    }
}

proof fn lemma_trim_end_props(s: Seq<char>)
    ensures
        trim_end(s).len() <= s.len(),
        s.take(trim_end(s).len() as int) == trim_end(s),
        trim_end(s).len() == 0 || !is_ws(trim_end(s).last()),
        s.len() > 0 && !is_ws(s[0]) ==> trim_end(s).len() > 0,
    decreases s.len(),
{
    if s.len() > 0 && is_ws(s.last()) {
        lemma_trim_end_props(s.drop_last());
        let t = trim_end(s.drop_last());
        assert(s.take(t.len() as int) =~= s.drop_last().take(t.len() as int));
        if s.len() > 0 && !is_ws(s[0]) {
            assert(s.drop_last()[0] == s[0]);
        }
    } else {
        assert(s.take(s.len() as int) =~= s);
    }
}

/// The trim of a text starts and ends with a non-whitespace character, or is
/// empty; it holds only characters of the text.
pub proof fn lemma_trim_props(s: Seq<char>)
    ensures
        trim(s).len() == 0 || (!is_ws(trim(s)[0]) && !is_ws(trim(s).last())),
        forall|x: char| !s.contains(x) ==> !trim(s).contains(x),
{
    lemma_trim_start_props(s);
    let a = trim_start(s);
    lemma_trim_end_props(a);
    let r = trim_end(a);
    let off = s.len() - a.len();
    if r.len() > 0 {
        assert(r[0] == a[0]);
    }
    assert forall|x: char| !s.contains(x) implies !r.contains(x) by {
        if r.contains(x) {
            let k = choose|k: int| 0 <= k < r.len() && r[k] == x;
            assert(a[k] == x);
            assert(s[off + k] == x);
        }
    }
}

} // verus!
