//! Reading the recorded versions out of the patcher's INI-style configuration.
use vstd::prelude::*;
use crate::text::{
    is_ws, trim, trim_start, trim_end, split_on, lemma_split_on_nonempty, chars_of, string_of,
    trim_bounds, has_prefix, copy_range, lemma_split_on_concat, lemma_split_on_single,
    lemma_trim_start_non_ws, lemma_trim_start_ws, lemma_trim_end_keeps,
};

verus! {

/// The header that opens the section holding the versions.
pub open spec fn backup_header() -> Seq<char> {
    seq!['[', 'B', 'a', 'c', 'k', 'u', 'p', ']']
}

/// The key of the version that the patcher last recorded for the application.
pub open spec fn version_key() -> Seq<char> {
    seq!['v', 'e', 'r', 's', 'i', 'o', 'n']
}

/// The key of the version that the backup was made against.
pub open spec fn with_key() -> Seq<char> {
    seq!['w', 'i', 't', 'h']
}

/// Whether `line` holds exactly one `=`.
pub open spec fn has_single_eq(line: Seq<char>) -> bool {
    exists|p: int|
        0 <= p < line.len() && line[p] == '=' && forall|q: int|
            0 <= q < line.len() && line[q] == '=' ==> q == p
}

/// The value of a `key = value` line: the trimmed text after its one `=`,
/// or nothing when the line holds no `=` or more than one.
pub open spec fn line_value(line: Seq<char>) -> Option<Seq<char>> {
    if has_single_eq(line) {
        let p = choose|p: int|
            0 <= p < line.len() && line[p] == '=' && forall|q: int|
                0 <= q < line.len() && line[q] == '=' ==> q == p;
        Some(trim(line.subrange(p + 1, line.len() as int)))
    } else {
        None
    }
}

/// Where the scan of the configuration stands after some of its lines.
pub struct ScanState {
    pub in_backup: bool,
    pub done: bool,
    pub current: Option<Seq<char>>,
    pub target: Option<Seq<char>>,
}

/// Before the first line: outside any section, nothing found.
pub open spec fn scan_start() -> ScanState {
    ScanState { in_backup: false, done: false, current: None, target: None }
}

/// The scan after one more line.
pub open spec fn scan_line(st: ScanState, line: Seq<char>) -> ScanState {
    let t = trim(line);
    if st.done {
        st
    } else if t == backup_header() {
        ScanState { in_backup: true, ..st }
    } else if !st.in_backup {
        st
    } else if version_key().is_prefix_of(t) {
        match line_value(line) {
            Some(v) => ScanState { current: Some(v), ..st },
            None => st,
        }
    } else if with_key().is_prefix_of(t) {
        match line_value(line) {
            Some(v) => ScanState { target: Some(v), ..st },
            None => st,
        }
    } else if t.len() > 0 && t[0] == '[' {
        ScanState { done: true, ..st }
    } else {
        st
    }
}

/// The scan after each of `lines`, first to last.
pub open spec fn scan_lines(st: ScanState, lines: Seq<Seq<char>>) -> ScanState
    decreases lines.len(),
{
    if lines.len() == 0 {
        st
    } else {
        scan_lines(scan_line(st, lines[0]), lines.drop_first())
    }
}

/// The lines of `text`: the pieces between line feeds. A carriage return
/// before a line feed stays in its line, where trimming removes it.
pub open spec fn lines_of(text: Seq<char>) -> Seq<Seq<char>> {
    split_on(text, '\n')
}

/// The `(current, target)` versions that `text` records.
pub open spec fn parse_versions(text: Seq<char>) -> (Option<Seq<char>>, Option<Seq<char>>) {
    let st = scan_lines(scan_start(), lines_of(text));
    (st.current, st.target)
}

/// The characters of an optional string.
pub open spec fn opt_view(o: Option<String>) -> Option<Seq<char>> {
    match o {
        Some(s) => Some(s@),
        None => None,
    }
}

pub proof fn lemma_scan_lines_push(st: ScanState, lines: Seq<Seq<char>>, line: Seq<char>)
    ensures
        scan_lines(st, lines.push(line)) == scan_line(scan_lines(st, lines), line),
    decreases lines.len(),
{
    if lines.len() == 0 {
        assert(lines.push(line).drop_first() =~= Seq::<Seq<char>>::empty());
        assert(scan_lines(scan_line(st, line), Seq::<Seq<char>>::empty()) == scan_line(st, line));
        assert(lines.push(line)[0] == line);
    } else {
        assert(lines.push(line).drop_first() =~= lines.drop_first().push(line));
        lemma_scan_lines_push(scan_line(st, lines[0]), lines.drop_first(), line);
        assert(lines.push(line)[0] == lines[0]);
    }
}

pub proof fn lemma_scan_lines_concat(st: ScanState, a: Seq<Seq<char>>, b: Seq<Seq<char>>)
    ensures
        scan_lines(st, a + b) == scan_lines(scan_lines(st, a), b),
    decreases a.len(),
{
    if a.len() == 0 {
        assert(a + b =~= b);
    } else {
        assert((a + b).drop_first() =~= a.drop_first() + b);
        assert((a + b)[0] == a[0]);
        lemma_scan_lines_concat(scan_line(st, a[0]), a.drop_first(), b);
    }
}

/// A finished scan reads no further line.
pub proof fn lemma_scan_done(st: ScanState, lines: Seq<Seq<char>>)
    requires
        st.done,
    ensures
        scan_lines(st, lines) == st,
    decreases lines.len(),
{
    if lines.len() > 0 {
        lemma_scan_done(st, lines.drop_first());
    }
}

/// Inside the section, or finished, a scan stays so.
pub proof fn lemma_scan_keeps_section(st: ScanState, lines: Seq<Seq<char>>)
    requires
        st.in_backup || st.done,
    ensures
        scan_lines(st, lines).in_backup || scan_lines(st, lines).done,
    decreases lines.len(),
{
    if lines.len() > 0 {
        lemma_scan_keeps_section(scan_line(st, lines[0]), lines.drop_first());
    }
}

/// A scan that meets the section header ends inside the section, or finished.
pub proof fn lemma_scan_enters_section(st: ScanState, lines: Seq<Seq<char>>, i: int)
    requires
        0 <= i < lines.len(),
        trim(lines[i]) == backup_header(),
    ensures
        scan_lines(st, lines).in_backup || scan_lines(st, lines).done,
    decreases lines.len(),
{
    if i == 0 {
        lemma_scan_keeps_section(scan_line(st, lines[0]), lines.drop_first());
    } else {
        lemma_scan_enters_section(scan_line(st, lines[0]), lines.drop_first(), i - 1);
    }
}

/// Without a section header the scan stays where it started.
proof fn lemma_scan_without_header(lines: Seq<Seq<char>>)
    requires
        forall|i: int| 0 <= i < lines.len() ==> trim(#[trigger] lines[i]) != backup_header(),
    ensures
        scan_lines(scan_start(), lines) == scan_start(),
    decreases lines.len(),
{
    if lines.len() > 0 {
        assert(trim(lines[0]) != backup_header());
        assert forall|i: int| 0 <= i < lines.drop_first().len() implies trim(
            #[trigger] lines.drop_first()[i],
        ) != backup_header() by {
            assert(lines.drop_first()[i] == lines[i + 1]);
        }
        lemma_scan_without_header(lines.drop_first());
    }
}

/// A text without a `[Backup]` line records neither version.
pub proof fn lemma_no_backup_section(text: Seq<char>)
    requires
        forall|i: int|
            0 <= i < lines_of(text).len() ==> trim(#[trigger] lines_of(text)[i])
                != backup_header(),
    ensures
        parse_versions(text) == (None::<Seq<char>>, None::<Seq<char>>),
{
    lemma_scan_without_header(lines_of(text));
}

/// The line `key = value`.
pub open spec fn setting_line(key: Seq<char>, value: Seq<char>) -> Seq<char> {
    key + seq![' ', '=', ' '] + value
}

proof fn lemma_no_newline_in_setting(key: Seq<char>, value: Seq<char>)
    requires
        !key.contains('\n'),
        !value.contains('\n'),
    ensures
        !setting_line(key, value).contains('\n'),
{
    let l = setting_line(key, value);
    if l.contains('\n') {
        let i = choose|i: int| 0 <= i < l.len() && l[i] == '\n';
        if i < key.len() {
            assert(key[i] == '\n');
        } else if i >= key.len() + 3 {
            assert(value[i - key.len() - 3] == '\n');
        }
    }
}

/// How the scan reads a `key = value` line whose value holds no `=`.
proof fn lemma_setting_line(key: Seq<char>, value: Seq<char>)
    requires
        key.len() > 0,
        !is_ws(key[0]),
        !key.contains('='),
        !value.contains('='),
    ensures
        key.is_prefix_of(trim(setting_line(key, value))),
        trim(setting_line(key, value))[0] == key[0],
        line_value(setting_line(key, value)) == Some(trim(value)),
{
    let l = setting_line(key, value);
    let k = key.len() as int;
    lemma_trim_start_non_ws(l);
    assert(l[k + 1] == '=');
    lemma_trim_end_keeps(l, k + 1);
    let t = trim(l);
    assert(t.subrange(0, k) =~= key);
    assert(t[0] == t.subrange(0, k)[0]);
    assert forall|q: int| 0 <= q < l.len() && l[q] == '=' implies q == k + 1 by {
        if q < k {
            assert(key[q] == '=');
        } else if q >= k + 3 {
            assert(value[q - k - 3] == '=');
        }
    }
    assert(has_single_eq(l));
    let p = choose|p: int|
        0 <= p < l.len() && l[p] == '=' && forall|q: int|
            0 <= q < l.len() && l[q] == '=' ==> q == p;
    assert(p == k + 1);
    assert(l.subrange(k + 2, l.len() as int) =~= seq![' '] + value);
    lemma_trim_start_ws(' ', value);
}

/// Of a `[Backup]` section with a `version` and a `with` line, the scan
/// reads the two values, trimmed.
pub proof fn lemma_backup_section_read(x: Seq<char>, y: Seq<char>)
    requires
        !x.contains('='),
        !x.contains('\n'),
        !y.contains('='),
        !y.contains('\n'),
    ensures
        parse_versions(
            backup_header() + seq!['\n'] + setting_line(version_key(), x) + seq!['\n']
                + setting_line(with_key(), y) + seq!['\n'],
        ) == (Some(trim(x)), Some(trim(y))),
{
    let h = backup_header();
    let l1 = setting_line(version_key(), x);
    let l2 = setting_line(with_key(), y);
    let e = Seq::<char>::empty();
    let nl = seq!['\n'];
    let text = h + nl + l1 + nl + l2 + nl;
    assert(!h.contains('\n')) by {
        if h.contains('\n') {
            let i = choose|i: int| 0 <= i < h.len() && h[i] == '\n';
        }
    }
    assert(!version_key().contains('\n') && !version_key().contains('=')) by {
        let v = version_key();
        if v.contains('\n') {
            let i = choose|i: int| 0 <= i < v.len() && v[i] == '\n';
        }
        if v.contains('=') {
            let i = choose|i: int| 0 <= i < v.len() && v[i] == '=';
        }
    }
    assert(!with_key().contains('\n') && !with_key().contains('=')) by {
        let w = with_key();
        if w.contains('\n') {
            let i = choose|i: int| 0 <= i < w.len() && w[i] == '\n';
        }
        if w.contains('=') {
            let i = choose|i: int| 0 <= i < w.len() && w[i] == '=';
        }
    }
    lemma_no_newline_in_setting(version_key(), x);
    lemma_no_newline_in_setting(with_key(), y);
    assert(text =~= h + nl + l1 + nl + l2 + nl + e);
    lemma_split_on_concat(h + nl + l1 + nl + l2, e, '\n');
    lemma_split_on_concat(h + nl + l1, l2, '\n');
    lemma_split_on_concat(h, l1, '\n');
    lemma_split_on_single(h, '\n');
    lemma_split_on_single(l1, '\n');
    lemma_split_on_single(l2, '\n');
    let lines = lines_of(text);
    assert(lines =~= seq![h].push(l1).push(l2).push(e));
    let st0 = scan_start();
    lemma_scan_lines_push(st0, seq![h], l1);
    lemma_scan_lines_push(st0, seq![h].push(l1), l2);
    lemma_scan_lines_push(st0, seq![h].push(l1).push(l2), e);
    lemma_scan_lines_push(st0, Seq::<Seq<char>>::empty(), h);
    assert(Seq::<Seq<char>>::empty().push(h) =~= seq![h]);
    lemma_trim_start_non_ws(h);
    assert(trim(h) == h);
    let st1 = scan_line(st0, h);
    assert(st1 == ScanState { in_backup: true, ..st0 });
    lemma_setting_line(version_key(), x);
    lemma_setting_line(with_key(), y);
    let st2 = scan_line(st1, l1);
    assert(st2 == ScanState { current: Some(trim(x)), ..st1 });
    let st3 = scan_line(st2, l2);
    assert(trim(l2) != backup_header());
    assert(!version_key().is_prefix_of(trim(l2)));
    assert(st3 == ScanState { target: Some(trim(y)), ..st2 });
    assert(trim(e) =~= e);
    assert(scan_line(st3, e) == st3);
}

/// A line that leaves every scan as it is does not change what a text
/// records.
proof fn lemma_line_passed_over(before: Seq<char>, l: Seq<char>, after: Seq<char>)
    requires
        !l.contains('\n'),
        forall|st: ScanState| #[trigger] scan_line(st, l) == st,
    ensures
        parse_versions(before + seq!['\n'] + l + seq!['\n'] + after) == parse_versions(
            before + seq!['\n'] + after,
        ),
{
    let nl = seq!['\n'];
    lemma_split_on_concat(before + nl + l, after, '\n');
    lemma_split_on_concat(before, l, '\n');
    lemma_split_on_concat(before, after, '\n');
    lemma_split_on_single(l, '\n');
    let a = lines_of(before);
    let b = lines_of(after);
    let st0 = scan_start();
    lemma_scan_lines_concat(st0, a + seq![l], b);
    lemma_scan_lines_concat(st0, a, seq![l]);
    lemma_scan_lines_concat(st0, a, b);
    let sa = scan_lines(st0, a);
    lemma_scan_lines_push(sa, Seq::<Seq<char>>::empty(), l);
    assert(Seq::<Seq<char>>::empty().push(l) =~= seq![l]);
    assert(scan_lines(sa, Seq::<Seq<char>>::empty()) == sa);
}

/// A `version` line with two `=` is passed over: the text reads as if the
/// line were absent, so the line never sets the current version.
pub proof fn lemma_double_eq_version_ignored(
    before: Seq<char>,
    a: Seq<char>,
    b: Seq<char>,
    after: Seq<char>,
)
    requires
        !a.contains('\n'),
        !b.contains('\n'),
    ensures
        ({
            let l = setting_line(version_key(), setting_line(a, b));
            parse_versions(before + seq!['\n'] + l + seq!['\n'] + after) == parse_versions(
                before + seq!['\n'] + after,
            )
        }),
{
    let v = version_key();
    let ab = setting_line(a, b);
    let l = setting_line(v, ab);
    assert(!v.contains('\n')) by {
        if v.contains('\n') {
            let i = choose|i: int| 0 <= i < v.len() && v[i] == '\n';
        }
    }
    lemma_no_newline_in_setting(a, b);
    lemma_no_newline_in_setting(v, ab);
    let first_eq = 8int;
    let second_eq: int = 10 + a.len() as int + 1;
    assert(l[first_eq] == '=');
    assert(l[second_eq] == ab[a.len() as int + 1]);
    assert(!has_single_eq(l)) by {
        if has_single_eq(l) {
            let p = choose|p: int|
                0 <= p < l.len() && l[p] == '=' && forall|q: int|
                    0 <= q < l.len() && l[q] == '=' ==> q == p;
            assert(p == first_eq);
            assert(p == second_eq);
        }
    }
    lemma_trim_start_non_ws(l);
    lemma_trim_end_keeps(l, first_eq);
    let t = trim(l);
    assert(t.subrange(0, 7) =~= v);
    assert(t[0] == t.subrange(0, 7)[0]);
    assert forall|st: ScanState| #[trigger] scan_line(st, l) == st by {
        assert(t != backup_header());
        assert(line_value(l) is None);
    }
    lemma_line_passed_over(before, l, after);
}

/// Once the `[Backup]` section has begun, the next section header ends the
/// scan: nothing after that header is read.
pub proof fn lemma_next_section_ends_scan(before: Seq<char>, h: Seq<char>, after: Seq<char>)
    requires
        exists|i: int|
            0 <= i < lines_of(before).len() && trim(#[trigger] lines_of(before)[i])
                == backup_header(),
        !h.contains('\n'),
        trim(h).len() > 0,
        trim(h)[0] == '[',
        trim(h) != backup_header(),
    ensures
        parse_versions(before + seq!['\n'] + h + seq!['\n'] + after) == parse_versions(before),
{
    let nl = seq!['\n'];
    lemma_split_on_concat(before + nl + h, after, '\n');
    lemma_split_on_concat(before, h, '\n');
    lemma_split_on_single(h, '\n');
    let a = lines_of(before);
    let b = lines_of(after);
    let st0 = scan_start();
    let i = choose|i: int| 0 <= i < a.len() && trim(#[trigger] a[i]) == backup_header();
    lemma_scan_enters_section(st0, a, i);
    lemma_scan_lines_concat(st0, a + seq![h], b);
    lemma_scan_lines_concat(st0, a, seq![h]);
    let sa = scan_lines(st0, a);
    lemma_scan_lines_push(sa, Seq::<Seq<char>>::empty(), h);
    assert(Seq::<Seq<char>>::empty().push(h) =~= seq![h]);
    assert(scan_lines(sa, Seq::<Seq<char>>::empty()) == sa);
    let sh = scan_line(sa, h);
    let t = trim(h);
    assert(!version_key().is_prefix_of(t)) by {
        if version_key().is_prefix_of(t) {
            assert(t[0] == t.subrange(0, 7)[0]);
        }
    }
    assert(!with_key().is_prefix_of(t)) by {
        if with_key().is_prefix_of(t) {
            assert(t[0] == t.subrange(0, 4)[0]);
        }
    }
    assert(sh.done && sh.current == sa.current && sh.target == sa.target);
    lemma_scan_done(sh, b);
}

/// The value after the single `=` of `v[lo..hi]`, if it holds exactly one.
fn value_of_line(v: &Vec<char>, lo: usize, hi: usize) -> (r: Option<String>)
    requires
        lo <= hi <= v.len(),
    ensures
        opt_view(r) == line_value(v@.subrange(lo as int, hi as int)),
{
    let ghost line = v@.subrange(lo as int, hi as int);
    let mut eq_at: usize = hi;
    let mut i: usize = lo;
    while i < hi
        invariant
            lo <= i <= hi <= v.len(),
            line == v@.subrange(lo as int, hi as int),
            eq_at == hi ==> forall|q: int| lo <= q < i ==> v@[q] != '=',
            eq_at != hi ==> lo <= eq_at < i && v@[eq_at as int] == '=' && forall|q: int|
                lo <= q < i && v@[q] == '=' ==> q == eq_at,
        decreases hi - i,
    {
        if v[i] == '=' {
            if eq_at != hi {
                assert(!has_single_eq(line)) by {
                    if has_single_eq(line) {
                        let p = choose|p: int|
                            0 <= p < line.len() && line[p] == '=' && forall|q: int|
                                0 <= q < line.len() && line[q] == '=' ==> q == p;
                        assert(line[eq_at - lo] == '=');
                        assert(line[i - lo] == '=');
                    }
                }
                return None;
            }
            eq_at = i;
        }
        i = i + 1;
    }
    if eq_at == hi {
        assert(!has_single_eq(line)) by {
            if has_single_eq(line) {
                let p = choose|p: int|
                    0 <= p < line.len() && line[p] == '=' && forall|q: int|
                        0 <= q < line.len() && line[q] == '=' ==> q == p;
                assert(v@[lo + p] == '=');
            }
        }
        return None;
    }
    let ghost p = eq_at - lo;
    assert(0 <= p < line.len() && line[p] == '=' && forall|q: int|
        0 <= q < line.len() && line[q] == '=' ==> q == p) by {
        assert forall|q: int| 0 <= q < line.len() && line[q] == '=' implies q == p by {
            assert(v@[lo + q] == '=');
        }
    }
    assert(has_single_eq(line));
    let (a, b) = trim_bounds(v, eq_at + 1, hi);
    assert(line.subrange(p + 1, line.len() as int) =~= v@.subrange(eq_at + 1, hi as int));
    let piece = copy_range(v, a, b);
    let s = string_of(piece.as_slice());
    Some(s)
}

/// The executable form of `ScanState`.
struct Scan {
    in_backup: bool,
    done: bool,
    current: Option<String>,
    target: Option<String>,
}

impl Scan {
    spec fn state(&self) -> ScanState {
        ScanState {
            in_backup: self.in_backup,
            done: self.done,
            current: opt_view(self.current),
            target: opt_view(self.target),
        }
    }

    /// Takes the line `v[lo..hi]` into the scan.
    fn take_line(
        &mut self,
        v: &Vec<char>,
        lo: usize,
        hi: usize,
        header: &Vec<char>,
        vkey: &Vec<char>,
        wkey: &Vec<char>,
    )
        requires
            lo <= hi <= v.len(),
            header@ == backup_header(),
            vkey@ == version_key(),
            wkey@ == with_key(),
        ensures
            final(self).state() == scan_line(old(self).state(), v@.subrange(lo as int, hi as int)),
    {
        if self.done {
            return;
        }
        let ghost line = v@.subrange(lo as int, hi as int);
        let (a, b) = trim_bounds(v, lo, hi);
        let ghost t = v@.subrange(a as int, b as int);
        assert(t == trim(line));
        let is_header = b - a == header.len() && has_prefix(v, a, b, header);
        assert(is_header == (t == backup_header())) by {
            if b - a == header.len() && header@.is_prefix_of(t) {
                assert(t =~= backup_header());
            }
        }
        if is_header {
            self.in_backup = true;
        } else if !self.in_backup {
        } else if has_prefix(v, a, b, vkey) {
            match value_of_line(v, lo, hi) {
                Some(val) => {
                    self.current = Some(val);
                },
                None => {},
            }
        } else if has_prefix(v, a, b, wkey) {
            match value_of_line(v, lo, hi) {
                Some(val) => {
                    self.target = Some(val);
                },
                None => {},
            }
        } else if a < b && v[a] == '[' {
            self.done = true;
        }
    }
}

/// Reads the `(current, target)` versions out of the `[Backup]` section of
/// `content`. `version` and `with` lines give them; a line with no `=` or
/// more than one is passed over; the next section header ends the scan.
pub fn get_versions_from_config_from_string(content: &str) -> (r: (Option<String>, Option<String>))
    ensures
        (opt_view(r.0), opt_view(r.1)) == parse_versions(content@),
{
    let v = chars_of(content);
    let header: Vec<char> = vec!['[', 'B', 'a', 'c', 'k', 'u', 'p', ']'];
    let vkey: Vec<char> = vec!['v', 'e', 'r', 's', 'i', 'o', 'n'];
    let wkey: Vec<char> = vec!['w', 'i', 't', 'h'];
    assert(header@ =~= backup_header());
    assert(vkey@ =~= version_key());
    assert(wkey@ =~= with_key());
    let mut scan = Scan { in_backup: false, done: false, current: None, target: None };
    let ghost finished: Seq<Seq<char>> = Seq::empty();
    let mut start: usize = 0;
    let mut i: usize = 0;
    assert(v@.subrange(0, 0) =~= Seq::<char>::empty());
    assert(finished.push(v@.subrange(0, 0)) =~= seq![Seq::<char>::empty()]);
    while i < v.len()
        invariant
            start <= i <= v.len(),
            v@ == content@,
            header@ == backup_header(),
            vkey@ == version_key(),
            wkey@ == with_key(),
            split_on(v@.subrange(0, i as int), '\n') == finished.push(
                v@.subrange(start as int, i as int),
            ),
            scan.state() == scan_lines(scan_start(), finished),
        decreases v.len() - i,
    {
        let ghost prev = v@.subrange(0, i as int);
        assert(v@.subrange(0, i + 1).drop_last() =~= prev);
        if v[i] == '\n' {
            scan.take_line(&v, start, i, &header, &vkey, &wkey);
            proof {
                lemma_scan_lines_push(scan_start(), finished, v@.subrange(start as int, i as int));
                finished = finished.push(v@.subrange(start as int, i as int));
            }
            start = i + 1;
            assert(v@.subrange(start as int, i + 1) =~= Seq::<char>::empty());
        } else {
            assert(v@.subrange(start as int, i + 1) =~= v@.subrange(start as int, i as int).push(
                v@[i as int],
            ));
        }
        i = i + 1;
    }
    scan.take_line(&v, start, i, &header, &vkey, &wkey);
    proof {
        lemma_scan_lines_push(scan_start(), finished, v@.subrange(start as int, i as int));
        assert(v@.subrange(0, i as int) =~= content@);
    }
    (scan.current, scan.target)
}

} // verus!
