//! Deterministic naming of packs and entries.
use vstd::prelude::*;

verus! {

/// What `slug::slugify` returns for a text.
pub uninterp spec fn slug_of(s: Seq<char>) -> Seq<char>;

/// What `char::to_uppercase` yields for a character, collected into text.
pub uninterp spec fn upper_of(c: char) -> Seq<char>;

/// A character that a slug may hold: `a`-`z`, `0`-`9` or `-`.
pub open spec fn is_slug_char(c: char) -> bool {
    is_ascii_lower(c) || is_ascii_digit(c) || c == '-'
}

pub open spec fn is_ascii_lower(c: char) -> bool {
    'a' as u32 <= c as u32 && c as u32 <= 'z' as u32
}

pub open spec fn is_ascii_upper(c: char) -> bool {
    'A' as u32 <= c as u32 && c as u32 <= 'Z' as u32
}

pub open spec fn is_ascii_digit(c: char) -> bool {
    '0' as u32 <= c as u32 && c as u32 <= '9' as u32
}

/// Slug characters only, with no leading, trailing or doubled `-`.
pub open spec fn is_slug(s: Seq<char>) -> bool {
    &&& forall|i: int| 0 <= i < s.len() ==> is_slug_char(#[trigger] s[i])
    &&& s.len() > 0 ==> s[0] != '-' && s.last() != '-'
    &&& forall|i: int| 0 <= i < s.len() - 1 ==> !(#[trigger] s[i] == '-' && s[i + 1] == '-')
}

pub open spec fn is_ascii_alnum(c: char) -> bool {
    is_ascii_lower(c) || is_ascii_upper(c) || is_ascii_digit(c)
}

/// `d` is the ASCII upper-case form of the ASCII character `c`.
pub open spec fn ascii_upper(c: char, d: char) -> bool {
    if is_ascii_lower(c) {
        d as u32 == c as u32 - 32
    } else {
        d == c
    }
}

/// Relies on `slug::slugify`: the slug depends on the text alone, and it
/// consists of `a`-`z`, `0`-`9` and `-`, never with a leading, trailing or
/// doubled `-`.
#[verifier::external_body]
fn slugify(s: &str) -> (r: String)
    ensures
        r@ == slug_of(s@),
        is_slug(r@),
{
    slug::slugify(s)
}

/// Relies on `char::to_uppercase`: the upper-case mapping of one character;
/// an ASCII character maps to its ASCII upper case (itself if it has none).
#[verifier::external_body]
fn char_to_upper(c: char) -> (r: String)
    ensures
        r@ == upper_of(c),
        (c as u32) < 128 ==> r@.len() == 1 && ascii_upper(c, r@[0]),
{
    c.to_uppercase().collect::<String>()
}

/// The text with its first character upper-cased.
pub open spec fn upper_first(s: Seq<char>) -> Seq<char> {
    if s.len() == 0 {
        Seq::empty()
    } else {
        upper_of(s[0]) + s.drop_first()
    }
}

/// The text with every `-` turned into `.`.
pub open spec fn dash_to_dot(s: Seq<char>) -> Seq<char> {
    s.map_values(|c: char| if c == '-' { '.' } else { c })
}

/// The parts of `s` between occurrences of `sep`, in order; there is one
/// more part than there are separators.
pub open spec fn split_on(s: Seq<char>, sep: char) -> Seq<Seq<char>>
    decreases s.len(),
{
    if s.len() == 0 {
        seq![Seq::empty()]
    } else {
        let p = split_on(s.drop_last(), sep);
        if s.last() == sep {
            p.push(Seq::empty())
        } else {
            p.update(p.len() - 1, p.last().push(s.last()))
        }
    }
}

/// The parts, each with its first letter upper-cased, joined without separators.
pub open spec fn join_upper(parts: Seq<Seq<char>>) -> Seq<char>
    decreases parts.len(),
{
    if parts.len() == 0 {
        Seq::empty()
    } else {
        join_upper(parts.drop_last()) + upper_first(parts.last())
    }
}

/// `s` split on `-`, each segment with its first letter upper-cased, joined.
pub open spec fn title_case(s: Seq<char>) -> Seq<char> {
    join_upper(split_on(s, '-'))
}

/// The display name of a pack named `name`.
pub open spec fn album_name_spec(name: Seq<char>) -> Seq<char> {
    dash_to_dot(upper_first(slug_of(name)))
}

/// The stable name of an entry.
pub open spec fn image_name_spec(album: Seq<char>, title: Seq<char>, username: Seq<char>) -> Seq<char> {
    album + "--"@ + username + "--"@ + title_case(slug_of(title))
}

/// Upper-cases the first character of `s`.
pub fn uppercase_first_letter(s: &str) -> (r: String)
    ensures
        r@ == upper_first(s@),
        s@.len() > 0 && (s@[0] as u32) < 128 ==> r@.len() == s@.len() && ascii_upper(s@[0], r@[0])
            && r@.drop_first() == s@.drop_first(),
{
    let n = s.unicode_len();
    if n == 0 {
        String::new()
    } else {
        let first = s.get_char(0);
        let mut r = char_to_upper(first);
        let ghost u = r@;
        r.append(s.substring_char(1, n));
        proof {
            assert(s@.subrange(1, n as int) =~= s@.drop_first());
            if (first as u32) < 128 {
                assert(r@[0] == u[0]);
                assert(r@.drop_first() =~= s@.drop_first());
            }
        }
        r
    }
}

/// Replaces every `-` of `s` by `.`.
fn replace_dashes(s: &str) -> (r: String)
    ensures
        r@ == dash_to_dot(s@),
{
    let n = s.unicode_len();
    let mut r = String::new();
    let mut i: usize = 0;
    while i < n
        invariant
            n == s@.len(),
            i <= n,
            r@ == dash_to_dot(s@.take(i as int)),
        decreases n - i,
    {
        let c = s.get_char(i);
        let ghost before = r@;
        if c == '-' {
            r.append(".");
            proof {
                reveal_strlit(".");
            }
        } else {
            r.append(s.substring_char(i, i + 1));
        }
        proof {
            assert(s@.take(i + 1) =~= s@.take(i as int).push(c));
            assert(dash_to_dot(s@.take(i + 1)) =~= dash_to_dot(s@.take(i as int)).push(
                if c == '-' { '.' } else { c },
            ));
            assert(r@ =~= before.push(if c == '-' { '.' } else { c }));
        }
        i = i + 1;
    }
    proof {
        assert(s@.take(n as int) =~= s@);
    }
    r
}

/// Upper-cases the first letter of each dash-separated segment of `s` and
/// joins the segments without separators; a slug yields ASCII letters and
/// digits only.
fn title_case_of(s: &str) -> (r: String)
    ensures
        r@ == title_case(s@),
        is_slug(s@) ==> forall|k: int| 0 <= k < r@.len() ==> is_ascii_alnum(#[trigger] r@[k]),
{
    let n = s.unicode_len();
    let mut r = String::new();
    let mut start: usize = 0;
    let mut i: usize = 0;
    while i < n
        invariant
            n == s@.len(),
            start <= i <= n,
            split_on(s@.take(i as int), '-').len() >= 1,
            split_on(s@.take(i as int), '-').last() == s@.subrange(start as int, i as int),
            r@ == join_upper(split_on(s@.take(i as int), '-').drop_last()),
            forall|k: int| start <= k < i ==> s@[k] != '-',
            is_slug(s@) ==> forall|k: int| 0 <= k < r@.len() ==> is_ascii_alnum(#[trigger] r@[k]),
        decreases n - i,
    {
        let ghost parts = split_on(s@.take(i as int), '-');
        let c = s.get_char(i);
        let ghost s1 = s@.take(i + 1);
        proof {
            assert(s1.drop_last() =~= s@.take(i as int));
            assert(s1.last() == c);
        }
        if c == '-' {
            let seg = s.substring_char(start, i);
            let u = uppercase_first_letter(seg);
            let ghost before = r@;
            r.append(u.as_str());
            proof {
                assert(split_on(s1, '-') == parts.push(Seq::empty()));
                assert(split_on(s1, '-').drop_last() =~= parts);
                assert(parts =~= parts.drop_last().push(seg@));
                assert(s@.subrange(i + 1, i + 1) =~= Seq::<char>::empty());
                if is_slug(s@) {
                    lemma_segment_alnum(seg@, u@);
                    assert forall|k: int| 0 <= k < r@.len() implies is_ascii_alnum(#[trigger] r@[k]) by {
                        if k >= before.len() {
                            assert(r@[k] == u@[k - before.len()]);
                        }
                    }
                }
            }
            start = i + 1;
        } else {
            proof {
                assert(split_on(s1, '-') == parts.update(parts.len() - 1, parts.last().push(c)));
                assert(split_on(s1, '-').drop_last() =~= parts.drop_last());
                assert(s@.subrange(start as int, i + 1) =~= s@.subrange(start as int, i as int).push(c));
            }
        }
        i = i + 1;
    }
    let seg = s.substring_char(start, n);
    let u = uppercase_first_letter(seg);
    let ghost before = r@;
    r.append(u.as_str());
    proof {
        let parts = split_on(s@.take(n as int), '-');
        assert(s@.take(n as int) =~= s@);
        assert(parts =~= parts.drop_last().push(seg@));
        if is_slug(s@) {
            lemma_segment_alnum(seg@, u@);
            assert forall|k: int| 0 <= k < r@.len() implies is_ascii_alnum(#[trigger] r@[k]) by {
                if k >= before.len() {
                    assert(r@[k] == u@[k - before.len()]);
                }
            }
        }
    }
    r
}

/// A segment of slug characters other than `-`, with its first letter
/// upper-cased as ASCII, holds ASCII letters and digits only.
proof fn lemma_segment_alnum(seg: Seq<char>, u: Seq<char>)
    requires
        forall|k: int| 0 <= k < seg.len() ==> is_slug_char(#[trigger] seg[k]) && seg[k] != '-',
        u == upper_first(seg),
        seg.len() > 0 && (seg[0] as u32) < 128 ==> u.len() == seg.len() && ascii_upper(seg[0], u[0])
            && u.drop_first() == seg.drop_first(),
    ensures
        forall|k: int| 0 <= k < u.len() ==> is_ascii_alnum(#[trigger] u[k]),
{
    if seg.len() > 0 {
        assert(is_slug_char(seg[0]));
        assert forall|k: int| 0 <= k < u.len() implies is_ascii_alnum(#[trigger] u[k]) by {
            if k > 0 {
                assert(u[k] == u.drop_first()[k - 1]);
                assert(seg[k] == seg.drop_first()[k - 1]);
            }
        }
    } else {
        assert(u.len() == 0);
    }
}

/// The display name of a pack: its slug, first letter upper-cased, dashes as
/// dots. It holds ASCII letters, digits and single inner dots only, and no
/// upper-case letter after the first character.
pub fn normalize_album_name(name: &str) -> (r: String)
    ensures
        r@ == album_name_spec(name@),
        forall|k: int| 0 <= k < r@.len() ==> is_ascii_alnum(#[trigger] r@[k]) || r@[k] == '.',
        r@.len() > 0 ==> r@[0] != '.' && r@.last() != '.',
        forall|k: int| 0 <= k < r@.len() - 1 ==> !(#[trigger] r@[k] == '.' && r@[k + 1] == '.'),
        forall|k: int| 1 <= k < r@.len() ==> !is_ascii_upper(#[trigger] r@[k]),
{
    let lower = slugify(name);
    let upper = uppercase_first_letter(lower.as_str());
    let r = replace_dashes(upper.as_str());
    proof {
        let l = lower@;
        let u = upper@;
        if l.len() > 0 {
            assert(is_slug_char(l[0]));
            assert(u.len() == l.len());
            assert forall|k: int| 1 <= k < u.len() implies #[trigger] u[k] == l[k] by {
                assert(u[k] == u.drop_first()[k - 1]);
                assert(l[k] == l.drop_first()[k - 1]);
            }
            assert(u[0] != '-');
            assert(is_ascii_alnum(u[0]));
            assert forall|k: int| 0 <= k < r@.len() implies is_ascii_alnum(#[trigger] r@[k]) || r@[k] == '.' by {
                if k > 0 {
                    assert(is_slug_char(l[k]));
                }
            }
            if u.len() > 1 {
                assert(u.last() == l.last());
            }
            assert forall|k: int| 0 <= k < r@.len() - 1 implies !(#[trigger] r@[k] == '.' && r@[k + 1] == '.') by {
                if k > 0 && r@[k] == '.' && r@[k + 1] == '.' {
                    assert(u[k] == '-' && u[k + 1] == '-');
                    assert(l[k] == '-');
                }
            }
            assert forall|k: int| 1 <= k < r@.len() implies !is_ascii_upper(#[trigger] r@[k]) by {
                assert(is_slug_char(l[k]));
            }
        } else {
            assert(u.len() == 0);
        }
    }
    r
}

/// The stable name of an entry: `{album}--{username}--{TitleCased}`; the
/// part from the title holds ASCII letters and digits only.
pub fn normalize_image_name(album: &str, title: &str, username: &str) -> (r: String)
    ensures
        r@ == image_name_spec(album@, title@, username@),
        forall|k: int|
            album@.len() + username@.len() + 4 <= k < r@.len() ==> is_ascii_alnum(#[trigger] r@[k]),
{
    let lower = slugify(title);
    let converted = title_case_of(lower.as_str());
    let mut r = String::from_str(album);
    r.append("--");
    r.append(username);
    r.append("--");
    let ghost head = r@;
    r.append(converted.as_str());
    proof {
        reveal_strlit("--");
        assert(head.len() == album@.len() + username@.len() + 4);
        assert forall|k: int| album@.len() + username@.len() + 4 <= k < r@.len() implies is_ascii_alnum(
            #[trigger] r@[k],
        ) by {
            assert(r@[k] == converted@[k - head.len()]);
        }
    }
    r
}

} // verus!
