//! The selection manifest: one `name:number` per line.
use vstd::prelude::*;

verus! {

/// What `str::trim` leaves of a line.
pub uninterp spec fn trim_of(s: Seq<char>) -> Seq<char>;

/// An ASCII character with the Unicode `White_Space` property.
pub open spec fn is_ascii_space(c: char) -> bool {
    c == ' ' || c == '\t' || c == '\n' || c == '\x0B' || c == '\x0C' || c == '\r'
}

/// An ASCII character without the Unicode `White_Space` property.
pub open spec fn is_ascii_nonspace(c: char) -> bool {
    (c as u32) < 128 && !is_ascii_space(c)
}

/// `t` is the part of `s` from `i` on, of `t`'s length, and what lies
/// outside it is never an ASCII non-space.
pub open spec fn trimmed_at(s: Seq<char>, t: Seq<char>, i: int) -> bool {
    &&& 0 <= i && i + t.len() <= s.len()
    &&& t == s.subrange(i, i + t.len())
    &&& forall|k: int| 0 <= k < i ==> !is_ascii_nonspace(#[trigger] s[k])
    &&& forall|k: int| i + t.len() <= k < s.len() ==> !is_ascii_nonspace(#[trigger] s[k])
}

/// Relies on `str::trim`: the line without its leading and trailing
/// characters of the Unicode `White_Space` property. It is a contiguous part
/// of the line; what it drops is never an ASCII non-space, and it neither
/// starts nor ends with an ASCII space.
#[verifier::external_body]
fn trim_line(s: &str) -> (r: String)
    ensures
        r@ == trim_of(s@),
        exists|i: int| #[trigger] trimmed_at(s@, r@, i),
        r@.len() > 0 ==> !is_ascii_space(r@[0]) && !is_ascii_space(r@.last()),
{
    s.trim().to_string()
}

/// A line that was skipped with a warning.
#[derive(Debug, PartialEq, Eq)]
pub enum ManifestWarning {
    /// A content line without a `:` separator; holds the trimmed line.
    InvalidLine(String),
    /// The text after the separator is not a number; holds that text.
    InvalidNumber(String),
}

/// The outcome of parsing a manifest: selections in file order, and the
/// malformed lines that were skipped.
pub struct ManifestParse {
    pub entries: Vec<(String, usize)>,
    pub warnings: Vec<ManifestWarning>,
}

/// A warning as a value of mathematics.
pub ghost enum WarningView {
    InvalidLine(Seq<char>),
    InvalidNumber(Seq<char>),
}

impl View for ManifestWarning {
    type V = WarningView;

    open spec fn view(&self) -> WarningView {
        match self {
            ManifestWarning::InvalidLine(s) => WarningView::InvalidLine(s@),
            ManifestWarning::InvalidNumber(s) => WarningView::InvalidNumber(s@),
        }
    }
}

/// What one line of the manifest amounts to.
pub ghost enum LineOutcome {
    Skip,
    Warn(WarningView),
    Entry(Seq<char>, usize),
}

/// The selections as values of mathematics.
pub open spec fn pairs_view(v: Seq<(String, usize)>) -> Seq<(Seq<char>, usize)> {
    v.map_values(|p: (String, usize)| (p.0@, p.1))
}

/// The warnings as values of mathematics.
pub open spec fn warnings_view(v: Seq<ManifestWarning>) -> Seq<WarningView> {
    v.map_values(|w: ManifestWarning| w@)
}

/// The lines of a text, split at each `\n`; the last line is what follows the
/// last `\n` (possibly empty).
pub open spec fn split_lines(s: Seq<char>) -> Seq<Seq<char>>
    decreases s.len(),
{
    if s.len() == 0 {
        seq![Seq::empty()]
    } else {
        let p = split_lines(s.drop_last());
        if s.last() == '\n' {
            p.push(Seq::empty())
        } else {
            p.update(p.len() - 1, p.last().push(s.last()))
        }
    }
}

/// The position of the first `:` of `t`, or its length if it holds none.
pub open spec fn colon_pos(t: Seq<char>) -> int
    decreases t.len(),
{
    if t.len() == 0 {
        0
    } else if t[0] == ':' {
        0
    } else {
        1 + colon_pos(t.drop_first())
    }
}

pub open spec fn is_digit(c: char) -> bool {
    '0' <= c && c <= '9'
}

/// The value of a string of decimal digits.
pub open spec fn digits_value(d: Seq<char>) -> nat
    decreases d.len(),
{
    if d.len() == 0 {
        0
    } else {
        digits_value(d.drop_last()) * 10 + (d.last() as nat - '0' as nat) as nat
    }
}

/// The digits of a number as `usize::from_str` reads it: an optional leading `+`.
pub open spec fn unsigned_digits(v: Seq<char>) -> Seq<char> {
    if v.len() > 0 && v[0] == '+' {
        v.drop_first()
    } else {
        v
    }
}

/// `v` as an unsigned number that fits in `usize`, if it is one.
pub open spec fn parse_usize_spec(v: Seq<char>) -> Option<usize> {
    let d = unsigned_digits(v);
    if d.len() > 0 && (forall|i: int| 0 <= i < d.len() ==> is_digit(#[trigger] d[i]))
        && digits_value(d) <= usize::MAX {
        Some(digits_value(d) as usize)
    } else {
        None
    }
}

/// What a trimmed line amounts to: blank lines and comments are skipped, a
/// line without `:` or whose value is not a number is warned about, and
/// `name:number` (split at the first `:`) is a selection.
pub open spec fn classify(t: Seq<char>) -> LineOutcome {
    if t.len() == 0 || t[0] == '#' {
        LineOutcome::Skip
    } else if colon_pos(t) == t.len() {
        LineOutcome::Warn(WarningView::InvalidLine(t))
    } else {
        let value = t.subrange(colon_pos(t) + 1, t.len() as int);
        match parse_usize_spec(value) {
            Some(n) => LineOutcome::Entry(t.take(colon_pos(t)), n),
            None => LineOutcome::Warn(WarningView::InvalidNumber(value)),
        }
    }
}

/// The selection that one raw line contributes, if any.
pub open spec fn line_entries(raw: Seq<char>) -> Seq<(Seq<char>, usize)> {
    match classify(trim_of(raw)) {
        LineOutcome::Entry(name, n) => seq![(name, n)],
        _ => Seq::empty(),
    }
}

/// The warning that one raw line contributes, if any.
pub open spec fn line_warnings(raw: Seq<char>) -> Seq<WarningView> {
    match classify(trim_of(raw)) {
        LineOutcome::Warn(w) => seq![w],
        _ => Seq::empty(),
    }
}

/// The selections of a sequence of raw lines.
pub open spec fn entries_of(lines: Seq<Seq<char>>) -> Seq<(Seq<char>, usize)>
    decreases lines.len(),
{
    if lines.len() == 0 {
        Seq::empty()
    } else {
        entries_of(lines.drop_last()) + line_entries(lines.last())
    }
}

/// The warnings of a sequence of raw lines.
pub open spec fn warnings_of(lines: Seq<Seq<char>>) -> Seq<WarningView>
    decreases lines.len(),
{
    if lines.len() == 0 {
        Seq::empty()
    } else {
        warnings_of(lines.drop_last()) + line_warnings(lines.last())
    }
}

/// How many of the lines are neither blank nor comments once trimmed.
pub open spec fn content_count(lines: Seq<Seq<char>>) -> nat
    decreases lines.len(),
{
    if lines.len() == 0 {
        0
    } else {
        let t = trim_of(lines.last());
        content_count(lines.drop_last()) + if t.len() == 0 || t[0] == '#' {
            0nat
        } else {
            1nat
        }
    }
}

proof fn lemma_colon_pos(t: Seq<char>, k: int)
    requires
        0 <= k <= t.len(),
        forall|j: int| 0 <= j < k ==> t[j] != ':',
        k == t.len() || t[k] == ':',
    ensures
        colon_pos(t) == k,
    decreases k,
{
    if k > 0 {
        assert(t[0] != ':');
        let u = t.drop_first();
        assert forall|j: int| 0 <= j < k - 1 implies u[j] != ':' by {
            assert(u[j] == t[j + 1]);
        }
        lemma_colon_pos(u, k - 1);
    }
}

proof fn lemma_digits_value_grows(d: Seq<char>, k: int, m: int)
    requires
        0 <= k <= m <= d.len(),
    ensures
        digits_value(d.take(k)) <= digits_value(d.take(m)),
    decreases m - k,
{
    if k < m {
        lemma_digits_value_grows(d, k, m - 1);
        assert(d.take(m).drop_last() =~= d.take(m - 1));
    }
}

/// Reads `d` as a string of decimal digits that fits in `usize`.
fn parse_digits(d: &str) -> (r: Option<usize>)
    ensures
        match r {
            Some(n) => d@.len() > 0 && (forall|i: int| 0 <= i < d@.len() ==> is_digit(#[trigger] d@[i]))
                && digits_value(d@) == n,
            None => !(d@.len() > 0 && (forall|i: int| 0 <= i < d@.len() ==> is_digit(#[trigger] d@[i]))
                && digits_value(d@) <= usize::MAX),
        },
{
    let n = d.unicode_len();
    if n == 0 {
        return None;
    }
    let mut acc: usize = 0;
    let mut i: usize = 0;
    while i < n
        invariant
            n == d@.len(),
            i <= n,
            forall|j: int| 0 <= j < i ==> is_digit(#[trigger] d@[j]),
            acc == digits_value(d@.take(i as int)),
        decreases n - i,
    {
        let c = d.get_char(i);
        if !('0' <= c && c <= '9') {
            return None;
        }
        let digit = (c as u32 - '0' as u32) as usize;
        proof {
            assert(d@.take(i + 1).drop_last() =~= d@.take(i as int));
        }
        match acc.checked_mul(10) {
            Some(t) => match t.checked_add(digit) {
                Some(v) => {
                    acc = v;
                },
                None => {
                    proof {
                        lemma_digits_value_grows(d@, i + 1, n as int);
                        assert(d@.take(n as int) =~= d@);
                    }
                    return None;
                },
            },
            None => {
                proof {
                    lemma_digits_value_grows(d@, i + 1, n as int);
                    assert(d@.take(n as int) =~= d@);
                }
                return None;
            },
        }
        i = i + 1;
    }
    proof {
        assert(d@.take(n as int) =~= d@);
    }
    Some(acc)
}

/// Reads `v` as `usize::from_str` does: an optional `+`, then decimal digits.
pub fn parse_usize(v: &str) -> (r: Option<usize>)
    ensures
        r == parse_usize_spec(v@),
{
    let n = v.unicode_len();
    if n > 0 && v.get_char(0) == '+' {
        let rest = v.substring_char(1, n);
        proof {
            assert(rest@ =~= v@.drop_first());
        }
        parse_digits(rest)
    } else {
        parse_digits(v)
    }
}

/// Parses one trimmed line: what it amounts to, as a selection or a warning.
pub fn parse_trimmed(t: &str) -> (r: (Option<(String, usize)>, Option<ManifestWarning>))
    ensures
        match classify(t@) {
            LineOutcome::Skip => r.0.is_none() && r.1.is_none(),
            LineOutcome::Warn(w) => r.0.is_none() && r.1.is_some() && r.1.unwrap()@ == w,
            LineOutcome::Entry(name, k) => r.1.is_none() && r.0.is_some() && r.0.unwrap().0@
                == name && r.0.unwrap().1 == k,
        },
{
    let n = t.unicode_len();
    if n == 0 || t.get_char(0) == '#' {
        return (None, None);
    }
    let mut k: usize = 0;
    while k < n && t.get_char(k) != ':'
        invariant
            n == t@.len(),
            k <= n,
            forall|j: int| 0 <= j < k ==> t@[j] != ':',
        decreases n - k,
    {
        k = k + 1;
    }
    proof {
        lemma_colon_pos(t@, k as int);
    }
    if k == n {
        return (None, Some(ManifestWarning::InvalidLine(String::from_str(t))));
    }
    let value = t.substring_char(k + 1, n);
    match parse_usize(value) {
        Some(v) => {
            let name = t.substring_char(0, k);
            proof {
                assert(name@ =~= t@.take(k as int));
            }
            (Some((String::from_str(name), v)), None)
        },
        None => (None, Some(ManifestWarning::InvalidNumber(String::from_str(value)))),
    }
}

/// Parses one raw line and records its outcome.
fn push_line(raw: &str, entries: &mut Vec<(String, usize)>, warnings: &mut Vec<ManifestWarning>)
    ensures
        pairs_view(final(entries)@) == pairs_view(old(entries)@) + line_entries(raw@),
        warnings_view(final(warnings)@) == warnings_view(old(warnings)@) + line_warnings(raw@),
{
    let t = trim_line(raw);
    let (e, w) = parse_trimmed(t.as_str());
    let ghost ev = pairs_view(entries@);
    let ghost wv = warnings_view(warnings@);
    match e {
        Some(p) => {
            entries.push(p);
            proof {
                assert(pairs_view(entries@) =~= ev + line_entries(raw@));
            }
        },
        None => {
            proof {
                assert(pairs_view(entries@) =~= ev + line_entries(raw@));
            }
        },
    }
    match w {
        Some(x) => {
            warnings.push(x);
            proof {
                assert(warnings_view(warnings@) =~= wv + line_warnings(raw@));
            }
        },
        None => {
            proof {
                assert(warnings_view(warnings@) =~= wv + line_warnings(raw@));
            }
        },
    }
}

/// Parses a manifest text: each line is trimmed; blank lines and lines that
/// start with `#` are skipped; `name:number` lines, split at the first `:`,
/// become selections in file order; any other line is skipped with a warning.
pub fn parse_manifest(input: &str) -> (r: ManifestParse)
    ensures
        pairs_view(r.entries@) == entries_of(split_lines(input@)),
        warnings_view(r.warnings@) == warnings_of(split_lines(input@)),
{
    let n = input.unicode_len();
    let mut entries: Vec<(String, usize)> = Vec::new();
    let mut warnings: Vec<ManifestWarning> = Vec::new();
    let mut start: usize = 0;
    let mut i: usize = 0;
    proof {
        assert(input@.take(0) =~= Seq::<char>::empty());
        assert(pairs_view(entries@) =~= Seq::empty());
        assert(warnings_view(warnings@) =~= Seq::empty());
    }
    while i < n
        invariant
            n == input@.len(),
            start <= i <= n,
            split_lines(input@.take(i as int)).len() >= 1,
            split_lines(input@.take(i as int)).last() == input@.subrange(start as int, i as int),
            pairs_view(entries@) == entries_of(split_lines(input@.take(i as int)).drop_last()),
            warnings_view(warnings@) == warnings_of(split_lines(input@.take(i as int)).drop_last()),
        decreases n - i,
    {
        let ghost lines = split_lines(input@.take(i as int));
        let c = input.get_char(i);
        let ghost s1 = input@.take(i + 1);
        proof {
            assert(s1.drop_last() =~= input@.take(i as int));
            assert(s1.last() == c);
        }
        if c == '\n' {
            let raw = input.substring_char(start, i);
            push_line(raw, &mut entries, &mut warnings);
            proof {
                assert(split_lines(s1) == lines.push(Seq::empty()));
                assert(split_lines(s1).drop_last() =~= lines);
                assert(lines =~= lines.drop_last().push(raw@));
                assert(input@.subrange(i + 1, i + 1) =~= Seq::<char>::empty());
            }
            start = i + 1;
        } else {
            proof {
                assert(split_lines(s1) == lines.update(lines.len() - 1, lines.last().push(c)));
                assert(split_lines(s1).drop_last() =~= lines.drop_last());
                assert(input@.subrange(start as int, i + 1) =~= input@.subrange(start as int, i as int).push(c));
            }
        }
        i = i + 1;
    }
    let raw = input.substring_char(start, n);
    push_line(raw, &mut entries, &mut warnings);
    proof {
        let lines = split_lines(input@.take(n as int));
        assert(input@.take(n as int) =~= input@);
        assert(lines =~= lines.drop_last().push(raw@));
    }
    ManifestParse { entries, warnings }
}

/// Every content line (neither blank nor a comment once trimmed) yields
/// either one selection or one warning: the selections number the content
/// lines less the malformed ones.
pub proof fn lemma_parse_counts(lines: Seq<Seq<char>>)
    ensures
        entries_of(lines).len() + warnings_of(lines).len() == content_count(lines),
        entries_of(lines).len() == content_count(lines) - warnings_of(lines).len(),
    decreases lines.len(),
{
    if lines.len() > 0 {
        lemma_parse_counts(lines.drop_last());
    }
}

} // verus!
