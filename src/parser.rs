use vstd::prelude::*;
use vstd::string::*;
use crate::model::PendingSecret;

verus! {

/// Unicode `White_Space` code points, the set that `str::trim` strips.
pub open spec fn is_white_space(c: char) -> bool {
    ('\u{9}' <= c && c <= '\u{d}') || c == ' ' || c == '\u{85}' || c == '\u{a0}'
        || c == '\u{1680}' || ('\u{2000}' <= c && c <= '\u{200a}') || c == '\u{2028}'
        || c == '\u{2029}' || c == '\u{202f}' || c == '\u{205f}' || c == '\u{3000}'
}

/// `s` with leading and trailing white space removed.
pub open spec fn trimmed(s: Seq<char>) -> Seq<char>
    decreases s.len(),
{
    if s.len() > 0 && is_white_space(s[0]) {
        trimmed(s.drop_first())
    } else if s.len() > 0 && is_white_space(s.last()) {
        trimmed(s.drop_last())
    } else {
        s
    }
}

/// Whether `c` is Unicode white space.
pub fn is_white_space_char(c: char) -> (r: bool)
    ensures
        r == is_white_space(c),
{
    ('\u{9}' <= c && c <= '\u{d}') || c == ' ' || c == '\u{85}' || c == '\u{a0}'
        || c == '\u{1680}' || ('\u{2000}' <= c && c <= '\u{200a}') || c == '\u{2028}'
        || c == '\u{2029}' || c == '\u{202f}' || c == '\u{205f}' || c == '\u{3000}'
}

} // verus!

verus! {

/// The character views of a sequence of strings.
pub open spec fn texts(v: Seq<String>) -> Seq<Seq<char>> {
    v.map_values(|s: String| s@)
}

/// Line `i` is the second of two consecutive empty lines.
pub open spec fn terminates_at(lines: Seq<Seq<char>>, i: int) -> bool {
    1 <= i < lines.len() && lines[i - 1].len() == 0 && lines[i].len() == 0
}

/// The first terminator at or after `i`, or the end of the lines.
pub open spec fn input_end_from(lines: Seq<Seq<char>>, i: int) -> int
    decreases lines.len() - i,
{
    if i >= lines.len() {
        lines.len() as int
    } else if terminates_at(lines, i) {
        i
    } else {
        input_end_from(lines, i + 1)
    }
}

/// Number of lines that belong to the pasted input.
pub open spec fn input_end(lines: Seq<Seq<char>>) -> int {
    input_end_from(lines, 1)
}

/// The non-empty lines of `lines`, in order.
pub open spec fn non_empty(lines: Seq<Seq<char>>) -> Seq<Seq<char>>
    decreases lines.len(),
{
    if lines.len() == 0 {
        Seq::empty()
    } else if lines.last().len() > 0 {
        non_empty(lines.drop_last()).push(lines.last())
    } else {
        non_empty(lines.drop_last())
    }
}

/// The lines collected from a paste: the non-empty ones before the first pair
/// of consecutive empty lines.
pub open spec fn collected(lines: Seq<Seq<char>>) -> Seq<Seq<char>> {
    non_empty(lines.take(input_end(lines)))
}

proof fn lemma_input_end(lines: Seq<Seq<char>>, k: int, e: int)
    requires
        1 <= k <= e <= lines.len(),
        e == lines.len() || terminates_at(lines, e),
        forall|j: int| k <= j < e ==> !terminates_at(lines, j),
    ensures
        input_end_from(lines, k) == e,
    decreases e - k,
{
    if k < e {
        lemma_input_end(lines, k + 1, e);
    }
}

/// Whether `line`, read right after `previous`, ends a paste: both are empty.
pub fn is_terminator(previous: &str, line: &str) -> (r: bool)
    ensures
        r == (previous@.len() == 0 && line@.len() == 0),
{
    previous.unicode_len() == 0 && line.unicode_len() == 0
}

/// Collects the lines of a paste: reading stops at the second of two
/// consecutive empty lines, and empty lines are left out.
pub fn collect_input(lines: &Vec<String>) -> (r: Vec<String>)
    ensures
        texts(r@) == collected(texts(lines@)),
{
    let ghost l = texts(lines@);
    let n = lines.len();
    let mut out: Vec<String> = Vec::new();
    let mut i: usize = 0;
    let mut stop = false;
    while i < n && !stop
        invariant
            n == lines@.len(),
            l == texts(lines@),
            i <= n,
            stop ==> terminates_at(l, i as int),
            forall|j: int| 1 <= j < i ==> !terminates_at(l, j),
            texts(out@) == non_empty(l.take(i as int)),
        decreases n - i + if stop { 0int } else { 1int },
    {
        let line = &lines[i];
        if i >= 1 && is_terminator(&lines[i - 1], line) {
            stop = true;
        } else {
            assert(l.take(i + 1).drop_last() =~= l.take(i as int));
            if line.unicode_len() > 0 {
                out.push(line.clone());
                assert(texts(out@) =~= non_empty(l.take(i as int)).push(l[i as int]));
            }
            i = i + 1;
        }
    }
    proof {
        if i >= 1 {
            lemma_input_end(l, 1, i as int);
        }
    }
    out
}

} // verus!

verus! {

/// `i` is the position of the first `=` in `s`.
pub open spec fn is_first_eq(s: Seq<char>, i: int) -> bool {
    0 <= i < s.len() && s[i] == '=' && forall|j: int| 0 <= j < i ==> s[j] != '='
}

/// A line that is empty after trimming, or a `#` comment.
pub open spec fn is_ignored(line: Seq<char>) -> bool {
    trimmed(line).len() == 0 || trimmed(line)[0] == '#'
}

/// The key and value that a line gives, if it gives one: the trimmed text
/// before the first `=` (which must not be empty) and the trimmed text after it.
pub open spec fn line_entry(line: Seq<char>) -> Option<(Seq<char>, Seq<char>)> {
    let t = trimmed(line);
    if is_ignored(line) {
        None
    } else if exists|i: int| is_first_eq(t, i) {
        let i = choose|i: int| is_first_eq(t, i);
        let k = trimmed(t.subrange(0, i));
        if k.len() == 0 {
            None
        } else {
            Some((k, trimmed(t.subrange(i + 1, t.len() as int))))
        }
    } else {
        None
    }
}

/// A line that is neither ignored nor gives an entry: reported and skipped.
pub open spec fn is_rejected(line: Seq<char>) -> bool {
    !is_ignored(line) && line_entry(line) is None
}

proof fn lemma_first_eq_unique(s: Seq<char>, i: int, j: int)
    requires
        is_first_eq(s, i),
        is_first_eq(s, j),
    ensures
        i == j,
{
    if i < j {
        assert(s[i] != '=');
    } else if j < i {
        assert(s[j] != '=');
    }
}

/// What one pasted line amounts to.
pub enum LineOutcome {
    Ignored,
    Rejected,
    Entry(PendingSecret),
}

/// Classifies one line of a paste.
pub fn classify_line(line: &str) -> (r: LineOutcome)
    ensures
        r is Ignored <==> is_ignored(line@),
        r is Rejected <==> is_rejected(line@),
        r matches LineOutcome::Entry(e) ==> line_entry(line@) == Some((e.key@, e.value@)),
{
    let t = trim(line);
    let n = t.unicode_len();
    if n == 0 {
        return LineOutcome::Ignored;
    }
    if t.get_char(0) == '#' {
        return LineOutcome::Ignored;
    }
    let mut i: usize = 0;
    while i < n && t.get_char(i) != '='
        invariant
            n == t@.len(),
            i <= n,
            forall|j: int| 0 <= j < i ==> t@[j] != '=',
        decreases n - i,
    {
        i = i + 1;
    }
    if i == n {
        assert(!exists|k: int| is_first_eq(t@, k));
        return LineOutcome::Rejected;
    }
    proof {
        assert(is_first_eq(t@, i as int));
        let c = choose|c: int| is_first_eq(t@, c);
        lemma_first_eq_unique(t@, i as int, c);
    }
    let k = trim(t.substring_char(0, i));
    let v = trim(t.substring_char(i + 1, n));
    if k.unicode_len() == 0 {
        LineOutcome::Rejected
    } else {
        LineOutcome::Entry(PendingSecret { key: String::from_str(k), value: String::from_str(v) })
    }
}

} // verus!

verus! {

/// The mapping that a sequence of lines gives: each entry line in turn, a
/// later line overwriting the value of an earlier one with the same key.
pub open spec fn entries_map(lines: Seq<Seq<char>>) -> Map<Seq<char>, Seq<char>>
    decreases lines.len(),
{
    if lines.len() == 0 {
        Map::empty()
    } else {
        let m = entries_map(lines.drop_last());
        match line_entry(lines.last()) {
            Some(kv) => m.insert(kv.0, kv.1),
            None => m,
        }
    }
}

/// The rejected lines among `lines`, in order.
pub open spec fn rejected_lines(lines: Seq<Seq<char>>) -> Seq<Seq<char>>
    decreases lines.len(),
{
    if lines.len() == 0 {
        Seq::empty()
    } else if is_rejected(lines.last()) {
        rejected_lines(lines.drop_last()).push(lines.last())
    } else {
        rejected_lines(lines.drop_last())
    }
}

/// No two entries share a key.
pub open spec fn keys_unique(s: Seq<PendingSecret>) -> bool {
    forall|i: int, j: int| 0 <= i < j < s.len() ==> s[i].key@ != s[j].key@
}

/// The key/value mapping that a sequence of entries stands for.
pub open spec fn secrets_map(s: Seq<PendingSecret>) -> Map<Seq<char>, Seq<char>>
    decreases s.len(),
{
    if s.len() == 0 {
        Map::empty()
    } else {
        secrets_map(s.drop_last()).insert(s.last().key@, s.last().value@)
    }
}

proof fn lemma_secrets_map_update(s: Seq<PendingSecret>, j: int, e: PendingSecret)
    requires
        keys_unique(s),
        0 <= j < s.len(),
        s[j].key@ == e.key@,
    ensures
        secrets_map(s.update(j, e)) == secrets_map(s).insert(e.key@, e.value@),
    decreases s.len(),
{
    let u = s.update(j, e);
    if j == s.len() - 1 {
        assert(u.drop_last() =~= s.drop_last());
        assert(secrets_map(u) =~= secrets_map(s).insert(e.key@, e.value@));
    } else {
        assert(u.drop_last() =~= s.drop_last().update(j, e));
        lemma_secrets_map_update(s.drop_last(), j, e);
        assert(s.last().key@ != e.key@);
        assert(secrets_map(u) =~= secrets_map(s).insert(e.key@, e.value@));
    }
}

/// Sets `key` to `value` in `secrets`, in place where the key is present,
/// appended where it is not.
pub fn insert_secret(secrets: &mut Vec<PendingSecret>, key: String, value: String)
    requires
        keys_unique(old(secrets)@),
    ensures
        keys_unique(final(secrets)@),
        secrets_map(final(secrets)@) == secrets_map(old(secrets)@).insert(key@, value@),
{
    let n = secrets.len();
    let mut j: usize = 0;
    while j < n && secrets[j].key != key
        invariant
            n == secrets@.len(),
            j <= n,
            forall|i: int| 0 <= i < j ==> secrets@[i].key@ != key@,
        decreases n - j,
    {
        j = j + 1;
    }
    let ghost s = secrets@;
    let e = PendingSecret { key, value };
    if j < n {
        proof {
            lemma_secrets_map_update(s, j as int, e);
        }
        secrets.set(j, e);
    } else {
        secrets.push(e);
        assert(secrets@.drop_last() =~= s);
    }
}

/// What a paste gives: its entries, keys unique, and the lines that were
/// rejected (no `=`, or an empty key).
pub struct PasteInput {
    pub secrets: Vec<PendingSecret>,
    pub rejected: Vec<String>,
}

/// Parses pasted lines: collects them up to the double empty line, skips
/// comments and blank lines, reports malformed ones, and keeps the last value
/// given for each key.
pub fn parse_paste_input(lines: &Vec<String>) -> (r: PasteInput)
    ensures
        keys_unique(r.secrets@),
        secrets_map(r.secrets@) == entries_map(collected(texts(lines@))),
        texts(r.rejected@) == rejected_lines(collected(texts(lines@))),
{
    let input = collect_input(lines);
    let ghost c = texts(input@);
    let mut secrets: Vec<PendingSecret> = Vec::new();
    let mut rejected: Vec<String> = Vec::new();
    let n = input.len();
    let mut i: usize = 0;
    while i < n
        invariant
            n == input@.len(),
            c == texts(input@),
            i <= n,
            keys_unique(secrets@),
            secrets_map(secrets@) == entries_map(c.take(i as int)),
            texts(rejected@) == rejected_lines(c.take(i as int)),
        decreases n - i,
    {
        let line = &input[i];
        assert(c.take(i + 1).drop_last() =~= c.take(i as int));
        assert(c.take(i + 1).last() == line@);
        match classify_line(line.as_str()) {
            LineOutcome::Ignored => {},
            LineOutcome::Rejected => {
                rejected.push(line.clone());
                assert(texts(rejected@) =~= rejected_lines(c.take(i as int)).push(line@));
            },
            LineOutcome::Entry(e) => {
                insert_secret(&mut secrets, e.key, e.value);
            },
        }
        i = i + 1;
    }
    assert(c.take(n as int) =~= c);
    PasteInput { secrets, rejected }
}

} // verus!

verus! {

/// `trimmed(s)` is `s[a..b]`: all white space before `a` and from `b` on, and
/// no white space at either end of what is kept.
pub open spec fn trims_to(s: Seq<char>, a: int, b: int) -> bool {
    &&& 0 <= a <= b <= s.len()
    &&& forall|i: int| 0 <= i < a ==> is_white_space(#[trigger] s[i])
    &&& forall|i: int| b <= i < s.len() ==> is_white_space(#[trigger] s[i])
    &&& a < b ==> !is_white_space(s[a]) && !is_white_space(s[b - 1])
}

proof fn lemma_trims_to(s: Seq<char>, a: int, b: int)
    requires
        trims_to(s, a, b),
    ensures
        trimmed(s) == s.subrange(a, b),
    decreases s.len(),
{
    if s.len() > 0 && is_white_space(s[0]) {
        let d = s.drop_first();
        if a == 0 {
            assert(b == 0);
            assert(trims_to(d, 0, 0));
            lemma_trims_to(d, 0, 0);
            assert(s.subrange(a, b) =~= d.subrange(0, 0));
        } else {
            assert(trims_to(d, a - 1, b - 1)) by {
                assert forall|i: int| 0 <= i < a - 1 implies is_white_space(#[trigger] d[i]) by {
                    assert(d[i] == s[i + 1]);
                }
                assert forall|i: int| b - 1 <= i < d.len() implies is_white_space(#[trigger] d[i]) by {
                    assert(d[i] == s[i + 1]);
                }
            }
            lemma_trims_to(d, a - 1, b - 1);
            assert(s.subrange(a, b) =~= d.subrange(a - 1, b - 1));
        }
    } else if s.len() > 0 && is_white_space(s.last()) {
        let d = s.drop_last();
        assert(b < s.len() || a == b);
        if a == b {
            assert(a < s.len() ==> is_white_space(s[a]));
            if a == s.len() {
                assert(s.len() > 0 ==> is_white_space(s[0]));
            }
        }
        assert(trims_to(d, a, if b == s.len() { b - 1 } else { b }));
        lemma_trims_to(d, a, if b == s.len() { b - 1 } else { b });
        assert(s.subrange(a, b) =~= d.subrange(a, if b == s.len() { b - 1 } else { b }));
    } else {
        if s.len() > 0 {
            assert(a == 0) by {
                if a > 0 {
                    assert(is_white_space(s[0]));
                }
            }
            assert(b == s.len()) by {
                if b < s.len() {
                    assert(is_white_space(s[s.len() - 1]));
                }
            }
        }
        assert(s.subrange(a, b) =~= s);
    }
}

/// A line whose first character is `#` is ignored, and so is a line that is
/// all white space; neither adds an entry or a rejection.
pub proof fn lemma_ignored_lines(prefix: Seq<Seq<char>>, line: Seq<char>)
    requires
        (line.len() > 0 && line[0] == '#') || (forall|i: int|
            0 <= i < line.len() ==> is_white_space(#[trigger] line[i])),
    ensures
        is_ignored(line),
        line_entry(line) is None,
        entries_map(prefix.push(line)) == entries_map(prefix),
        rejected_lines(prefix.push(line)) == rejected_lines(prefix),
{
    if line.len() > 0 && line[0] == '#' {
        let b = lemma_last_non_white(line);
        assert(trims_to(line, 0, b));
        lemma_trims_to(line, 0, b);
    } else {
        assert(trims_to(line, 0, 0));
        lemma_trims_to(line, 0, 0);
    }
    assert(prefix.push(line).drop_last() =~= prefix);
}

proof fn lemma_last_non_white(s: Seq<char>) -> (b: int)
    requires
        s.len() > 0,
        !is_white_space(s[0]),
    ensures
        1 <= b <= s.len(),
        !is_white_space(s[b - 1]),
        forall|i: int| b <= i < s.len() ==> is_white_space(#[trigger] s[i]),
    decreases s.len(),
{
    if !is_white_space(s.last()) {
        s.len() as int
    } else {
        let d = s.drop_last();
        let b = lemma_last_non_white(d);
        assert(s[b - 1] == d[b - 1]);
        assert forall|i: int| b <= i < s.len() implies is_white_space(#[trigger] s[i]) by {
            if i < s.len() - 1 {
                assert(s[i] == d[i]);
            }
        }
        b
    }
}

} // verus!

verus! {

proof fn lemma_trim_bounds(s: Seq<char>) -> (r: (int, int))
    ensures
        trims_to(s, r.0, r.1),
    decreases s.len(),
{
    if s.len() == 0 {
        (0, 0)
    } else if is_white_space(s[0]) {
        let d = s.drop_first();
        let (a, b) = lemma_trim_bounds(d);
        assert forall|i: int| 0 <= i < a + 1 implies is_white_space(#[trigger] s[i]) by {
            if i > 0 {
                assert(s[i] == d[i - 1]);
            }
        }
        assert forall|i: int| b + 1 <= i < s.len() implies is_white_space(#[trigger] s[i]) by {
            assert(s[i] == d[i - 1]);
        }
        if a < b {
            assert(s[a + 1] == d[a] && s[b] == d[b - 1]);
        }
        (a + 1, b + 1)
    } else {
        let b = lemma_last_non_white(s);
        (0, b)
    }
}

/// A line without `=` never gives an entry: the mapping is left as it was,
/// and the line is reported unless it is blank or a comment.
pub proof fn lemma_line_without_eq(prefix: Seq<Seq<char>>, line: Seq<char>)
    requires
        forall|i: int| 0 <= i < line.len() ==> line[i] != '=',
    ensures
        line_entry(line) is None,
        entries_map(prefix.push(line)) == entries_map(prefix),
        !is_ignored(line) ==> is_rejected(line) && rejected_lines(prefix.push(line))
            == rejected_lines(prefix).push(line),
{
    let (a, b) = lemma_trim_bounds(line);
    lemma_trims_to(line, a, b);
    let t = trimmed(line);
    assert forall|i: int| !is_first_eq(t, i) by {
        if 0 <= i < t.len() {
            assert(t[i] == line[a + i]);
        }
    }
    assert(prefix.push(line).drop_last() =~= prefix);
}

/// Among lines with the same key, the last one's value is kept.
pub proof fn lemma_last_value_wins(lines: Seq<Seq<char>>, i: int, k: Seq<char>, v: Seq<char>)
    requires
        0 <= i < lines.len(),
        line_entry(lines[i]) == Some((k, v)),
        forall|j: int| i < j < lines.len() ==> !(#[trigger] line_entry(lines[j]) matches Some(
            kv,
        ) && kv.0 == k),
    ensures
        entries_map(lines).contains_key(k),
        entries_map(lines)[k] == v,
    decreases lines.len(),
{
    let d = lines.drop_last();
    if i < lines.len() - 1 {
        assert forall|j: int| i < j < d.len() implies !(#[trigger] line_entry(d[j]) matches Some(kv)
            && kv.0 == k) by {
            assert(d[j] == lines[j]);
        }
        assert(d[i] == lines[i]);
        lemma_last_value_wins(d, i, k, v);
        assert(!(line_entry(lines[lines.len() - 1]) matches Some(kv) && kv.0 == k));
    }
}

} // verus!

verus! {

/// A line `KEY=VALUE`, whose key part holds no `=` and, trimmed, is neither
/// empty nor starts with `#`, gives exactly the trimmed key and the trimmed
/// value (which may hold further `=`).
pub proof fn lemma_well_formed_line(k: Seq<char>, v: Seq<char>)
    requires
        forall|i: int| 0 <= i < k.len() ==> k[i] != '=',
        trimmed(k).len() > 0,
        trimmed(k)[0] != '#',
    ensures
        line_entry(k + seq!['='] + v) == Some((trimmed(k), trimmed(v))),
{
    let line = k + seq!['='] + v;
    let n = k.len() as int;
    let (a1, b1) = lemma_trim_bounds(k);
    lemma_trims_to(k, a1, b1);
    let (a2, b2) = lemma_trim_bounds(v);
    lemma_trims_to(v, a2, b2);
    assert(a1 < b1);
    assert(!is_white_space('='));
    assert(line[n] == '=');
    assert forall|i: int| 0 <= i < n implies line[i] == k[i] by {}
    assert forall|i: int| 0 <= i < v.len() implies line[n + 1 + i] == v[i] by {}
    let e = if a2 < b2 { n + 1 + b2 } else { n + 1 };
    if a2 == b2 {
        assert forall|i: int| 0 <= i < v.len() implies is_white_space(#[trigger] v[i]) by {
            if a2 <= i {
                assert(b2 <= i);
            }
        }
    }
    assert forall|i: int| 0 <= i < a1 implies is_white_space(#[trigger] line[i]) by {
        assert(line[i] == k[i]);
    }
    assert forall|i: int| e <= i < line.len() implies is_white_space(#[trigger] line[i]) by {
        assert(line[i] == v[i - n - 1]);
    }
    assert(trims_to(line, a1, e));
    lemma_trims_to(line, a1, e);
    let t = trimmed(line);
    assert(t == line.subrange(a1, e));
    let p = n - a1;
    assert(is_first_eq(t, p)) by {
        assert forall|j: int| 0 <= j < p implies t[j] != '=' by {
            assert(t[j] == k[a1 + j]);
        }
    }
    assert(!is_ignored(line)) by {
        assert(t[0] == k[a1]);
        assert(trimmed(k)[0] == k[a1]);
    }
    let c = choose|c: int| is_first_eq(t, c);
    lemma_first_eq_unique(t, p, c);
    let kp = t.subrange(0, p);
    assert(kp =~= k.subrange(a1, n));
    assert(trims_to(kp, 0, b1 - a1)) by {
        assert forall|i: int| b1 - a1 <= i < kp.len() implies is_white_space(#[trigger] kp[i]) by {
            assert(kp[i] == k[a1 + i]);
        }
        assert(kp[0] == k[a1]);
        assert(kp[b1 - a1 - 1] == k[b1 - 1]);
    }
    lemma_trims_to(kp, 0, b1 - a1);
    assert(kp.subrange(0, b1 - a1) =~= k.subrange(a1, b1));
    let vp = t.subrange(p + 1, t.len() as int);
    assert(vp =~= v.subrange(0, e - n - 1));
    if a2 < b2 {
        assert(trims_to(vp, a2, b2)) by {
            assert forall|i: int| 0 <= i < a2 implies is_white_space(#[trigger] vp[i]) by {
                assert(vp[i] == v[i]);
            }
            assert(vp[a2] == v[a2]);
            assert(vp[b2 - 1] == v[b2 - 1]);
        }
        lemma_trims_to(vp, a2, b2);
        assert(vp.subrange(a2, b2) =~= v.subrange(a2, b2));
    } else {
        assert(trims_to(vp, 0, 0));
        lemma_trims_to(vp, 0, 0);
        assert(vp.subrange(0, 0) =~= v.subrange(a2, b2));
    }
}

} // verus!

verus! {

proof fn lemma_input_end_from_props(lines: Seq<Seq<char>>, k: int)
    requires
        1 <= k,
    ensures
        k <= lines.len() ==> k <= input_end_from(lines, k),
        input_end_from(lines, k) <= lines.len(),
        forall|j: int| k <= j < input_end_from(lines, k) ==> !terminates_at(lines, j),
        input_end_from(lines, k) == lines.len() || terminates_at(lines, input_end_from(lines, k)),
    decreases lines.len() - k,
{
    if k < lines.len() && !terminates_at(lines, k) {
        lemma_input_end_from_props(lines, k + 1);
    }
}

proof fn lemma_non_empty_concat(a: Seq<Seq<char>>, b: Seq<Seq<char>>)
    ensures
        non_empty(a + b) == non_empty(a) + non_empty(b),
    decreases b.len(),
{
    if b.len() == 0 {
        assert(a + b =~= a);
        assert(non_empty(a) + non_empty(b) =~= non_empty(a));
    } else {
        assert((a + b).drop_last() =~= a + b.drop_last());
        lemma_non_empty_concat(a, b.drop_last());
        if b.last().len() > 0 {
            assert(non_empty(a) + non_empty(b) =~= (non_empty(a) + non_empty(b.drop_last())).push(
                b.last(),
            ));
        }
    }
}

/// Two consecutive empty lines end the input: nothing after them is
/// collected.
pub proof fn lemma_double_blank_ends_input(before: Seq<Seq<char>>, after: Seq<Seq<char>>)
    ensures
        collected(before + seq![Seq::<char>::empty(), Seq::<char>::empty()] + after) == collected(
            before,
        ),
{
    let blank = Seq::<char>::empty();
    let l = before + seq![blank, blank] + after;
    let m = before.len() as int;
    assert forall|j: int| 1 <= j < m implies terminates_at(l, j) == terminates_at(before, j) by {
        assert(l[j] == before[j] && l[j - 1] == before[j - 1]);
    }
    assert(l[m] == blank && l[m + 1] == blank);
    assert(terminates_at(l, m + 1));
    lemma_input_end_from_props(before, 1);
    let eb = input_end(before);
    if eb < m {
        lemma_input_end(l, 1, eb);
        assert(l.take(eb) =~= before.take(eb));
    } else {
        assert(eb == m || m == 0);
        assert(before.take(m) =~= before);
        if m >= 1 && before[m - 1].len() == 0 {
            assert(terminates_at(l, m));
            lemma_input_end(l, 1, m);
            assert(l.take(m) =~= before);
        } else {
            assert(!terminates_at(l, m));
            lemma_input_end(l, 1, m + 1);
            assert(l.take(m + 1) =~= before.push(blank));
            assert(before.push(blank).drop_last() =~= before);
        }
        assert(before.take(eb) =~= before);
    }
}

/// A single empty line between lines that are not empty does not end the
/// input: the lines after it are collected too.
pub proof fn lemma_single_blank_continues(before: Seq<Seq<char>>, after: Seq<Seq<char>>)
    requires
        forall|j: int| 1 <= j < before.len() ==> !terminates_at(before, j),
        before.len() > 0 ==> before.last().len() > 0,
        after.len() > 0 ==> after[0].len() > 0,
    ensures
        collected(before + seq![Seq::<char>::empty()] + after) == non_empty(before) + collected(
            after,
        ),
{
    let blank = Seq::<char>::empty();
    let l = before + seq![blank] + after;
    let m = before.len() as int;
    let mid = before + seq![blank];
    lemma_input_end_from_props(after, 1);
    let ea = input_end(after);
    assert forall|j: int| 1 <= j < m + 1 + ea implies !terminates_at(l, j) by {
        if j < m {
            assert(l[j] == before[j] && l[j - 1] == before[j - 1]);
            assert(!terminates_at(before, j));
        } else if j == m {
            assert(l[j - 1] == before[m - 1]);
            assert(before.last() == before[m - 1]);
        } else if j == m + 1 {
            assert(l[j] == after[0]);
        } else {
            assert(l[j] == after[j - m - 1] && l[j - 1] == after[j - m - 2]);
            assert(!terminates_at(after, j - m - 1));
        }
    }
    if ea < after.len() {
        assert(terminates_at(after, ea));
        assert(l[m + 1 + ea] == after[ea] && l[m + ea] == after[ea - 1]);
    }
    lemma_input_end(l, 1, m + 1 + ea);
    assert(l.take(m + 1 + ea) =~= mid + after.take(ea));
    lemma_non_empty_concat(mid, after.take(ea));
    assert(mid.drop_last() =~= before);
}

} // verus!

verus! {

/// No key of a parsed mapping is empty or starts with `#`.
pub proof fn lemma_keys_non_empty(lines: Seq<Seq<char>>)
    ensures
        forall|k: Seq<char>| #[trigger] entries_map(lines).contains_key(k) ==> k.len() > 0 && k[0]
            != '#',
    decreases lines.len(),
{
    if lines.len() > 0 {
        lemma_keys_non_empty(lines.drop_last());
        let m = entries_map(lines.drop_last());
        lemma_entry_key_shape(lines.last());
        if let Some(kv) = line_entry(lines.last()) {
            assert(kv.0.len() > 0);
            assert forall|k: Seq<char>| #[trigger] entries_map(lines).contains_key(k) implies k.len()
                > 0 && k[0] != '#' by {
                if k != kv.0 {
                    assert(m.contains_key(k));
                }
            }
        }
    }
}

} // verus!

verus! {

/// Removes leading and trailing white space.
pub fn trim(s: &str) -> (r: &str)
    ensures
        r@ == trimmed(s@),
{
    let n = s.unicode_len();
    let mut a: usize = 0;
    while a < n && is_white_space_char(s.get_char(a))
        invariant
            n == s@.len(),
            a <= n,
            forall|i: int| 0 <= i < a ==> is_white_space(#[trigger] s@[i]),
        decreases n - a,
    {
        a = a + 1;
    }
    let mut b: usize = n;
    while b > a && is_white_space_char(s.get_char(b - 1))
        invariant
            n == s@.len(),
            a <= b <= n,
            forall|i: int| b <= i < n ==> is_white_space(#[trigger] s@[i]),
        decreases b,
    {
        b = b - 1;
    }
    proof {
        lemma_trims_to(s@, a as int, b as int);
    }
    s.substring_char(a, b)
}

/// An answer to a yes/no question is a yes when, trimmed, it starts with `y`
/// or `Y`.
pub fn is_affirmative(answer: &str) -> (r: bool)
    ensures
        r == (trimmed(answer@).len() > 0 && (trimmed(answer@)[0] == 'y' || trimmed(answer@)[0]
            == 'Y')),
{
    let t = trim(answer);
    if t.unicode_len() == 0 {
        false
    } else {
        let c = t.get_char(0);
        c == 'y' || c == 'Y'
    }
}

/// A line that gives no entry, wherever it stands among the collected lines,
/// leaves the mapping as it is without it.
pub proof fn lemma_entryless_line_anywhere(a: Seq<Seq<char>>, line: Seq<char>, b: Seq<Seq<char>>)
    requires
        line_entry(line) is None,
    ensures
        entries_map(a + seq![line] + b) == entries_map(a + b),
    decreases b.len(),
{
    if b.len() == 0 {
        assert(a + seq![line] + b =~= a.push(line));
        assert(a + b =~= a);
        assert(a.push(line).drop_last() =~= a);
    } else {
        lemma_entryless_line_anywhere(a, line, b.drop_last());
        assert((a + seq![line] + b).drop_last() =~= a + seq![line] + b.drop_last());
        assert((a + b).drop_last() =~= a + b.drop_last());
    }
}

/// A line without `=`, wherever it stands, gives no entry.
pub proof fn lemma_line_without_eq_anywhere(a: Seq<Seq<char>>, line: Seq<char>, b: Seq<Seq<char>>)
    requires
        forall|i: int| 0 <= i < line.len() ==> line[i] != '=',
    ensures
        entries_map(a + seq![line] + b) == entries_map(a + b),
{
    lemma_line_without_eq(a, line);
    lemma_entryless_line_anywhere(a, line, b);
}

/// A comment or an all-white-space line, wherever it stands, gives no entry.
pub proof fn lemma_ignored_line_anywhere(a: Seq<Seq<char>>, line: Seq<char>, b: Seq<Seq<char>>)
    requires
        (line.len() > 0 && line[0] == '#') || (forall|i: int|
            0 <= i < line.len() ==> is_white_space(#[trigger] line[i])),
    ensures
        entries_map(a + seq![line] + b) == entries_map(a + b),
{
    lemma_ignored_lines(a, line);
    lemma_entryless_line_anywhere(a, line, b);
}

/// A key that a line gives is not empty and does not start with `#`.
pub proof fn lemma_entry_key_shape(line: Seq<char>)
    ensures
        line_entry(line) matches Some(kv) ==> kv.0.len() > 0 && kv.0[0] != '#',
{
    if let Some(kv) = line_entry(line) {
        let (a, b) = lemma_trim_bounds(line);
        lemma_trims_to(line, a, b);
        let t = trimmed(line);
        let i = choose|i: int| is_first_eq(t, i);
        let kp = t.subrange(0, i);
        let (a2, b2) = lemma_trim_bounds(kp);
        lemma_trims_to(kp, a2, b2);
        assert(i > 0) by {
            if i == 0 {
                assert(kp.len() == 0);
            }
        }
        assert(t[0] == line[a]);
        assert(kp[0] == t[0]);
        assert(a2 == 0) by {
            if a2 > 0 {
                assert(is_white_space(kp[0]));
            }
        }
        assert(kv.0 == kp.subrange(0, b2));
        assert(kv.0[0] == kp[0]);
    }
}

} // verus!

verus! {

/// A pasted line that gives no entry (no `=`, an empty key, a comment, white
/// space) and stands before the end of the input can be left out of the paste
/// without changing the mapping, so long as leaving it out does not bring two
/// empty lines together.
pub proof fn lemma_entryless_line_in_paste(a: Seq<Seq<char>>, line: Seq<char>, b: Seq<Seq<char>>)
    requires
        line.len() > 0,
        line_entry(line) is None,
        forall|j: int| 1 <= j < a.len() ==> !terminates_at(a, j),
        !(a.len() > 0 && b.len() > 0 && a.last().len() == 0 && b[0].len() == 0),
    ensures
        entries_map(collected(a + seq![line] + b)) == entries_map(collected(a + b)),
{
    let l = a + seq![line] + b;
    let lp = a + b;
    let m = a.len() as int;
    lemma_input_end_from_props(lp, 1);
    let e = input_end(lp);
    assert forall|j: int| 1 <= j < m implies !terminates_at(lp, j) && !terminates_at(l, j) by {
        assert(lp[j] == a[j] && lp[j - 1] == a[j - 1]);
        assert(l[j] == a[j] && l[j - 1] == a[j - 1]);
        assert(!terminates_at(a, j));
    }
    if m >= 1 && b.len() > 0 {
        assert(lp[m - 1] == a.last() && lp[m] == b[0]);
        assert(!terminates_at(lp, m));
    }
    assert(m <= e) by {
        if e < m {
            assert(e == lp.len() || terminates_at(lp, e));
        }
    }
    assert(l[m] == line);
    assert forall|j: int| 1 <= j < e + 1 implies !terminates_at(l, j) by {
        if j == m || j == m + 1 {
            assert(l[m] == line);
        } else if j >= m + 2 {
            assert(l[j] == lp[j - 1] && l[j - 1] == lp[j - 2]);
            assert(!terminates_at(lp, j - 1));
        }
    }
    if e < lp.len() {
        assert(terminates_at(lp, e));
        assert(e >= m + 1);
        assert(l[e + 1] == lp[e] && l[e] == lp[e - 1]);
    }
    lemma_input_end(l, 1, e + 1);
    let bt = b.take(e - m);
    assert(l.take(e + 1) =~= (a + seq![line]) + bt);
    assert(lp.take(e) =~= a + bt);
    lemma_non_empty_concat(a + seq![line], bt);
    lemma_non_empty_concat(a, bt);
    assert((a + seq![line]).drop_last() =~= a);
    assert(non_empty(a + seq![line]) == non_empty(a).push(line));
    assert(non_empty(a).push(line) + non_empty(bt) =~= non_empty(a) + seq![line] + non_empty(bt));
    lemma_entryless_line_anywhere(non_empty(a), line, non_empty(bt));
}

} // verus!

verus! {

/// A pasted line without `=`, or starting with `#`, adds no key: leaving it
/// out of the paste (before the end of the input, without bringing two empty
/// lines together) gives the same mapping.
pub proof fn lemma_paste_without_line(a: Seq<Seq<char>>, line: Seq<char>, b: Seq<Seq<char>>)
    requires
        line.len() > 0,
        (forall|i: int| 0 <= i < line.len() ==> line[i] != '=') || line[0] == '#',
        forall|j: int| 1 <= j < a.len() ==> !terminates_at(a, j),
        !(a.len() > 0 && b.len() > 0 && a.last().len() == 0 && b[0].len() == 0),
    ensures
        entries_map(collected(a + seq![line] + b)) == entries_map(collected(a + b)),
{
    if line[0] == '#' {
        lemma_ignored_lines(a, line);
    } else {
        lemma_line_without_eq(a, line);
    }
    lemma_entryless_line_in_paste(a, line, b);
}

} // verus!
