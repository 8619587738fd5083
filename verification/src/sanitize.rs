use vstd::prelude::*;
use vstd::string::*;
use crate::strutil::string_from_range;

verus! {

/// Characters that may appear in a finished slug: lowercase ASCII letters,
/// digits, dash and underscore.
pub open spec fn is_allowed_lower(c: char) -> bool {
    ('a' <= c && c <= 'z') || ('0' <= c && c <= '9') || c == '-' || c == '_'
}

pub open spec fn is_upper(c: char) -> bool {
    'A' <= c && c <= 'Z'
}

/// The lowercase counterpart of an uppercase ASCII letter; other characters
/// are left alone.
pub open spec fn lower_char(c: char) -> char {
    match c {
        'A' => 'a',
        'B' => 'b',
        'C' => 'c',
        'D' => 'd',
        'E' => 'e',
        'F' => 'f',
        'G' => 'g',
        'H' => 'h',
        'I' => 'i',
        'J' => 'j',
        'K' => 'k',
        'L' => 'l',
        'M' => 'm',
        'N' => 'n',
        'O' => 'o',
        'P' => 'p',
        'Q' => 'q',
        'R' => 'r',
        'S' => 's',
        'T' => 't',
        'U' => 'u',
        'V' => 'v',
        'W' => 'w',
        'X' => 'x',
        'Y' => 'y',
        'Z' => 'z',
        _ => c,
    }
}

/// How one character of a title is carried into the slug: safe lowercase
/// characters stay, uppercase ASCII letters are lowered, everything else
/// becomes an underscore.
pub open spec fn map_char(c: char) -> char {
    if is_allowed_lower(c) {
        c
    } else if is_upper(c) {
        lower_char(c)
    } else {
        '_'
    }
}

pub open spec fn mapped(s: Seq<char>) -> Seq<char> {
    s.map_values(|c: char| map_char(c))
}

pub open spec fn strip_leading(s: Seq<char>) -> Seq<char>
    decreases s.len(),
{
    if s.len() > 0 && s[0] == '_' {
        strip_leading(s.drop_first())
    } else {
        s
    }
}

pub open spec fn strip_trailing(s: Seq<char>) -> Seq<char>
    decreases s.len(),
{
    if s.len() > 0 && s.last() == '_' {
        strip_trailing(s.drop_last())
    } else {
        s
    }
}

/// The slug of a title: every character not in `[A-Za-z0-9_-]` becomes `_`,
/// the result is lowercased, then leading and trailing underscores are
/// stripped.
pub open spec fn spec_sanitize(s: Seq<char>) -> Seq<char> {
    strip_trailing(strip_leading(mapped(s)))
}

proof fn lemma_strip_leading_at(s: Seq<char>, k: int)
    requires
        0 <= k <= s.len(),
        forall|j: int| 0 <= j < k ==> s[j] == '_',
        k < s.len() ==> s[k] != '_',
    ensures
        strip_leading(s) == s.subrange(k, s.len() as int),
    decreases k,
{
    if k == 0 {
        assert(s.subrange(0, s.len() as int) =~= s);
    } else {
        let t = s.drop_first();
        assert(forall|j: int| 0 <= j < k - 1 ==> t[j] == '_');
        lemma_strip_leading_at(t, k - 1);
        assert(t.subrange(k - 1, t.len() as int) =~= s.subrange(k, s.len() as int));
    }
}

proof fn lemma_strip_trailing_at(s: Seq<char>, e: int)
    requires
        0 <= e <= s.len(),
        forall|j: int| e <= j < s.len() ==> s[j] == '_',
        e > 0 ==> s[e - 1] != '_',
    ensures
        strip_trailing(s) == s.subrange(0, e),
    decreases s.len(),
{
    if s.len() == e {
        assert(s.subrange(0, e) =~= s);
    } else {
        assert(s.last() == '_');
        let t = s.drop_last();
        lemma_strip_trailing_at(t, e);
        assert(t.subrange(0, e) =~= s.subrange(0, e));
    }
}

/// Every character that `map_char` produces lies in the allowed lowercase set.
proof fn lemma_map_char_allowed(c: char)
    ensures
        is_allowed_lower(map_char(c)),
{
}

/// The stripped-and-mapped slug, characterised by the first and last
/// positions of the mapped title that are not underscores.
proof fn lemma_sanitize_range(s: Seq<char>, start: int, end: int)
    requires
        0 <= start <= end <= s.len(),
        forall|j: int| 0 <= j < start ==> #[trigger] mapped(s)[j] == '_',
        forall|j: int| end <= j < s.len() ==> #[trigger] mapped(s)[j] == '_',
        start < end ==> mapped(s)[start] != '_' && mapped(s)[end - 1] != '_',
        start == end ==> start == s.len(),
    ensures
        spec_sanitize(s) == mapped(s).subrange(start, end),
    decreases 0int,
{
    let m = mapped(s);
    if start == end {
        lemma_strip_leading_at(m, m.len() as int);
        assert(strip_leading(m) =~= Seq::<char>::empty());
        assert(m.subrange(start, end) =~= Seq::<char>::empty());
    } else {
        lemma_strip_leading_at(m, start);
        let t = m.subrange(start, m.len() as int);
        assert(forall|j: int|
            end - start <= j < t.len() ==> #[trigger] t[j] == m[j + start] && t[j] == '_');
        lemma_strip_trailing_at(t, end - start);
        assert(t.subrange(0, end - start) =~= m.subrange(start, end));
    }
}

/// Maps a single character as the sanitizer does.
fn map_char_exec(c: char) -> (r: char)
    ensures
        r == map_char(c),
{
    if ('a' <= c && c <= 'z') || ('0' <= c && c <= '9') || c == '-' || c == '_' {
        c
    } else if 'A' <= c && c <= 'Z' {
        match c {
            'A' => 'a',
            'B' => 'b',
            'C' => 'c',
            'D' => 'd',
            'E' => 'e',
            'F' => 'f',
            'G' => 'g',
            'H' => 'h',
            'I' => 'i',
            'J' => 'j',
            'K' => 'k',
            'L' => 'l',
            'M' => 'm',
            'N' => 'n',
            'O' => 'o',
            'P' => 'p',
            'Q' => 'q',
            'R' => 'r',
            'S' => 's',
            'T' => 't',
            'U' => 'u',
            'V' => 'v',
            'W' => 'w',
            'X' => 'x',
            'Y' => 'y',
            _ => 'z',
        }
    } else {
        '_'
    }
}

/// Turns a post title into a slug safe for use as a single path segment:
/// characters outside `[A-Za-z0-9_-]` become `_`, uppercase ASCII letters
/// are lowered, and leading and trailing underscores are stripped.
pub fn sanitize_filename(filename: &String) -> (r: String)
    ensures
        r@ == spec_sanitize(filename@),
{
    let s = filename.as_str();
    let n = s.unicode_len();
    let mut m: Vec<char> = Vec::new();
    let mut i: usize = 0;
    while i < n
        invariant
            i <= n,
            n == s@.len(),
            m@.len() == i,
            forall|j: int| 0 <= j < i ==> m@[j] == map_char(s@[j]),
        decreases n - i,
    {
        m.push(map_char_exec(s.get_char(i)));
        i = i + 1;
    }
    proof {
        assert(m@ =~= mapped(s@));
    }
    let mut start: usize = 0;
    while start < n && m[start] == '_'
        invariant
            start <= n,
            n == m@.len(),
            forall|j: int| 0 <= j < start ==> m@[j] == '_',
        decreases n - start,
    {
        start = start + 1;
    }
    let mut end: usize = n;
    while end > start && m[end - 1] == '_'
        invariant
            start <= end <= n,
            n == m@.len(),
            forall|j: int| end <= j < n ==> m@[j] == '_',
        decreases end,
    {
        end = end - 1;
    }
    let r = string_from_range(&m, start, end);
    proof {
        if start == end && start < n {
            assert(m@[start as int] != '_');
            assert(m@[start as int] == '_');
            assert(false);
        }
        lemma_sanitize_range(s@, start as int, end as int);
    }
    r
}

/// Sanitizing is idempotent: running the sanitizer on its own output changes
/// nothing.
pub proof fn lemma_sanitize_idempotent(s: Seq<char>)
    ensures
        spec_sanitize(spec_sanitize(s)) == spec_sanitize(s),
{
    let r = spec_sanitize(s);
    lemma_sanitize_chars(s);
    assert forall|j: int| 0 <= j < r.len() implies #[trigger] map_char(r[j]) == r[j] by {
        assert(is_allowed_lower(r[j]));
    }
    assert(mapped(r) =~= r);
    if r.len() == 0 {
        assert(strip_leading(r) == r);
        assert(strip_trailing(r) == r);
    } else {
        assert(strip_leading(r) == r);
        assert(strip_trailing(r) == r);
    }
}

/// The sanitizer's output holds only characters from `[a-z0-9_-]`, and is
/// either empty or free of underscores at both ends.
pub proof fn lemma_sanitize_chars(s: Seq<char>)
    ensures
        forall|j: int| 0 <= j < spec_sanitize(s).len() ==> is_allowed_lower(#[trigger] spec_sanitize(s)[j]),
        spec_sanitize(s).len() > 0 ==> spec_sanitize(s)[0] != '_',
        spec_sanitize(s).len() > 0 ==> spec_sanitize(s).last() != '_',
{
    let m = mapped(s);
    let start = first_non_underscore(m, 0);
    lemma_first_non_underscore(m, 0);
    if start == m.len() {
        lemma_sanitize_range(s, start, start);
    } else {
        let endm1 = last_non_underscore(m);
        lemma_last_non_underscore(m);
        assert(m[start] != '_');
        assert(start <= endm1) by {
            if endm1 < start {
                assert(m[start] == '_');
            }
        }
        lemma_sanitize_range(s, start, endm1 + 1);
        assert forall|j: int| 0 <= j < spec_sanitize(s).len() implies is_allowed_lower(
            #[trigger] spec_sanitize(s)[j],
        ) by {
            assert(spec_sanitize(s)[j] == m[start + j]);
            lemma_map_char_allowed(s[start + j]);
        }
    }
}

/// The first position at or after `i` where the sequence is not an
/// underscore, or the length if there is none.
spec fn first_non_underscore(s: Seq<char>, i: int) -> int
    decreases s.len() - i,
{
    if i < 0 || i >= s.len() {
        s.len() as int
    } else if s[i] != '_' {
        i
    } else {
        first_non_underscore(s, i + 1)
    }
}

proof fn lemma_first_non_underscore(s: Seq<char>, i: int)
    requires
        0 <= i <= s.len(),
    ensures
        i <= first_non_underscore(s, i) <= s.len(),
        forall|j: int| i <= j < first_non_underscore(s, i) ==> s[j] == '_',
        first_non_underscore(s, i) < s.len() ==> s[first_non_underscore(s, i)] != '_',
    decreases s.len() - i,
{
    if i < s.len() && s[i] == '_' {
        lemma_first_non_underscore(s, i + 1);
    }
}

/// The last position where the sequence is not an underscore, or `-1`.
spec fn last_non_underscore(s: Seq<char>) -> int
    decreases s.len(),
{
    if s.len() == 0 {
        -1
    } else if s.last() != '_' {
        s.len() - 1
    } else {
        last_non_underscore(s.drop_last())
    }
}

proof fn lemma_last_non_underscore(s: Seq<char>)
    ensures
        -1 <= last_non_underscore(s) < s.len(),
        forall|j: int| last_non_underscore(s) < j < s.len() ==> s[j] == '_',
        last_non_underscore(s) >= 0 ==> s[last_non_underscore(s)] != '_',
    decreases s.len(),
{
    if s.len() > 0 && s.last() == '_' {
        let t = s.drop_last();
        lemma_last_non_underscore(t);
        assert forall|j: int| last_non_underscore(s) < j < s.len() implies s[j] == '_' by {
            if j < s.len() - 1 {
                assert(t[j] == '_');
            }
        }
    }
}

} // verus!
