use vstd::prelude::*;
use vstd::string::*;
use crate::manifest::lex_le;
use crate::strutil::{chars_of, string_from_range};
use crate::tags::is_unicode_ws;
use crate::BuildError;

verus! {

/// A line is an acceptable date line when it is exactly ten characters long
/// and carries a dot at positions two and five, the `DD.MM.YYYY` layout.
pub open spec fn spec_valid_dateline(s: Seq<char>) -> bool {
    s.len() == 10 && s[2] == '.' && s[5] == '.'
}

/// Checks the `DD.MM.YYYY` shape of a date line; total, never panics.
pub fn validate_dateline(line: &str) -> (r: bool)
    ensures
        r == spec_valid_dateline(line@),
{
    let n = line.unicode_len();
    if n != 10 {
        return false;
    }
    let c2 = line.get_char(2);
    let c5 = line.get_char(5);
    c2 == '.' && c5 == '.'
}

/// The sortable `YYYYMMDD` key of a `DD.MM.YYYY` date line.
pub open spec fn spec_date_key(s: Seq<char>) -> Seq<char> {
    s.subrange(6, 10) + s.subrange(3, 5) + s.subrange(0, 2)
}

/// The human `MM/DD` form of a `DD.MM.YYYY` date line.
pub open spec fn spec_date_display(s: Seq<char>) -> Seq<char> {
    s.subrange(3, 5) + seq!['/'] + s.subrange(0, 2)
}

/// Derives the sortable `YYYYMMDD` key from a valid date line.
pub fn date_key(line: &str) -> (r: String)
    requires
        spec_valid_dateline(line@),
    ensures
        r@ == spec_date_key(line@),
{
    let mut r = String::from_str(line.substring_char(6, 10));
    r.append(line.substring_char(3, 5));
    r.append(line.substring_char(0, 2));
    r
}

/// Derives the `MM/DD` display form from a valid date line.
pub fn date_display(line: &str) -> (r: String)
    requires
        spec_valid_dateline(line@),
    ensures
        r@ == spec_date_display(line@),
{
    let mut r = String::from_str(line.substring_char(3, 5));
    r.append("/");
    r.append(line.substring_char(0, 2));
    proof {
        reveal_strlit("/");
        assert("/"@ =~= seq!['/']);
    }
    r
}

/// The first position at or after `i` holding a newline, or the length.
pub open spec fn find_nl(s: Seq<char>, i: int) -> int
    decreases s.len() - i,
{
    if i < 0 || i >= s.len() {
        s.len() as int
    } else if s[i] == '\n' {
        i
    } else {
        find_nl(s, i + 1)
    }
}

proof fn lemma_find_nl_range(s: Seq<char>, i: int, k: int)
    requires
        0 <= i <= k <= s.len(),
        forall|j: int| i <= j < k ==> s[j] != '\n',
        k < s.len() ==> s[k] == '\n',
    ensures
        find_nl(s, i) == k,
    decreases k - i,
{
    if i < k {
        lemma_find_nl_range(s, i + 1, k);
    }
}

proof fn lemma_find_nl_bounds(s: Seq<char>, i: int)
    requires
        0 <= i <= s.len(),
    ensures
        i <= find_nl(s, i) <= s.len(),
    decreases s.len() - i,
{
    if i < s.len() && s[i] != '\n' {
        lemma_find_nl_bounds(s, i + 1);
    }
}

#[via_fn]
proof fn spec_lines_dec(s: Seq<char>) {
    if s.len() > 0 {
        lemma_find_nl_bounds(s, 0);
    }
}

/// The lines of a document, as std's `lines` cuts them: segments split at
/// `\n`, a `\r` directly before a `\n` stripped, and no empty segment after
/// a final newline.
pub open spec fn spec_lines(s: Seq<char>) -> Seq<Seq<char>>
    decreases s.len(),
    via spec_lines_dec
{
    if s.len() == 0 {
        Seq::empty()
    } else {
        let i = find_nl(s, 0);
        if i == s.len() {
            seq![s]
        } else {
            let line = if i > 0 && s[i - 1] == '\r' {
                s.subrange(0, i - 1)
            } else {
                s.subrange(0, i)
            };
            seq![line] + spec_lines(s.subrange(i + 1, s.len() as int))
        }
    }
}

/// Splits a document into its lines.
pub fn split_lines(s: &str) -> (r: Vec<String>)
    ensures
        r.deep_view() == spec_lines(s@),
{
    let m = chars_of(s);
    let n = m.len();
    let mut out: Vec<String> = Vec::new();
    let mut pos: usize = 0;
    proof {
        assert(s@.subrange(0, n as int) =~= s@);
        assert(out.deep_view() =~= Seq::<Seq<char>>::empty());
        assert(Seq::<Seq<char>>::empty() + spec_lines(s@) =~= spec_lines(s@));
    }
    while pos < n
        invariant
            pos <= n,
            n == m@.len(),
            m@ == s@,
            spec_lines(s@) == out.deep_view() + spec_lines(s@.subrange(pos as int, n as int)),
        decreases n - pos,
    {
        let ghost rem = s@.subrange(pos as int, n as int);
        let mut i: usize = pos;
        while i < n && m[i] != '\n'
            invariant
                pos <= i <= n,
                n == m@.len(),
                m@ == s@,
                forall|j: int| pos <= j < i ==> m@[j] != '\n',
            decreases n - i,
        {
            i = i + 1;
        }
        proof {
            assert(forall|j: int| 0 <= j < i - pos ==> rem[j] != '\n');
            if i < n {
                assert(rem[i - pos] == '\n');
            }
            lemma_find_nl_range(rem, 0, i - pos as int);
        }
        let ghost old_dv = out.deep_view();
        if i == n {
            let line = string_from_range(&m, pos, n);
            proof {
                assert(line@ =~= rem);
                assert(spec_lines(rem) == seq![rem]);
            }
            out.push(line);
            proof {
                assert(out.deep_view() =~= old_dv.push(rem));
                assert(s@.subrange(n as int, n as int) =~= Seq::<char>::empty());
                assert(spec_lines(s@.subrange(n as int, n as int)) == Seq::<Seq<char>>::empty());
                assert(old_dv.push(rem) + Seq::<Seq<char>>::empty() =~= old_dv + seq![rem]);
            }
            pos = n;
        } else {
            let line_end: usize = if i > pos && m[i - 1] == '\r' {
                i - 1
            } else {
                i
            };
            let line = string_from_range(&m, pos, line_end);
            let ghost nl = i - pos as int;
            let ghost line0 = if nl > 0 && rem[nl - 1] == '\r' {
                rem.subrange(0, nl - 1)
            } else {
                rem.subrange(0, nl)
            };
            proof {
                if nl > 0 {
                    assert(rem[nl - 1] == m@[i - 1]);
                }
                assert(line@ =~= line0);
                assert(spec_lines(rem) == seq![line0] + spec_lines(
                    rem.subrange(nl + 1, rem.len() as int),
                ));
                assert(rem.subrange(nl + 1, rem.len() as int) =~= s@.subrange(
                    i + 1,
                    n as int,
                ));
            }
            out.push(line);
            proof {
                assert(out.deep_view() =~= old_dv.push(line0));
                assert(old_dv.push(line0) + spec_lines(s@.subrange(i + 1, n as int)) =~= old_dv
                    + spec_lines(rem));
            }
            pos = i + 1;
        }
    }
    proof {
        assert(s@.subrange(pos as int, n as int) =~= Seq::<char>::empty());
        assert(out.deep_view() + Seq::<Seq<char>>::empty() =~= out.deep_view());
    }
    out
}

pub open spec fn trim_start_ws(s: Seq<char>) -> Seq<char>
    decreases s.len(),
{
    if s.len() > 0 && is_unicode_ws(s[0]) {
        trim_start_ws(s.drop_first())
    } else {
        s
    }
}

pub open spec fn trim_end_ws(s: Seq<char>) -> Seq<char>
    decreases s.len(),
{
    if s.len() > 0 && is_unicode_ws(s.last()) {
        trim_end_ws(s.drop_last())
    } else {
        s
    }
}

/// A line with its whitespace removed at both ends, as std's `str::trim`
/// cuts it.
pub open spec fn trim_ws(s: Seq<char>) -> Seq<char> {
    trim_end_ws(trim_start_ws(s))
}

proof fn lemma_trim_start_at(s: Seq<char>, k: int)
    requires
        0 <= k <= s.len(),
        forall|j: int| 0 <= j < k ==> is_unicode_ws(s[j]),
        k < s.len() ==> !is_unicode_ws(s[k]),
    ensures
        trim_start_ws(s) == s.subrange(k, s.len() as int),
    decreases k,
{
    if k == 0 {
        assert(s.subrange(0, s.len() as int) =~= s);
    } else {
        let t = s.drop_first();
        lemma_trim_start_at(t, k - 1);
        assert(t.subrange(k - 1, t.len() as int) =~= s.subrange(k, s.len() as int));
    }
}

proof fn lemma_trim_end_at(s: Seq<char>, e: int)
    requires
        0 <= e <= s.len(),
        forall|j: int| e <= j < s.len() ==> is_unicode_ws(s[j]),
        e > 0 ==> !is_unicode_ws(s[e - 1]),
    ensures
        trim_end_ws(s) == s.subrange(0, e),
    decreases s.len(),
{
    if s.len() == e {
        assert(s.subrange(0, e) =~= s);
    } else {
        let t = s.drop_last();
        lemma_trim_end_at(t, e);
        assert(t.subrange(0, e) =~= s.subrange(0, e));
    }
}

/// The trimmed line, characterised by the first and last positions that
/// hold no whitespace.
proof fn lemma_trim_range(s: Seq<char>, start: int, end: int)
    requires
        0 <= start <= end <= s.len(),
        forall|j: int| 0 <= j < start ==> is_unicode_ws(s[j]),
        forall|j: int| end <= j < s.len() ==> is_unicode_ws(s[j]),
        start < end ==> !is_unicode_ws(s[start]) && !is_unicode_ws(s[end - 1]),
        start == end ==> start == s.len(),
    ensures
        trim_ws(s) == s.subrange(start, end),
{
    if start == end {
        lemma_trim_start_at(s, s.len() as int);
        assert(trim_start_ws(s) =~= Seq::<char>::empty());
        assert(s.subrange(start, end) =~= Seq::<char>::empty());
    } else {
        lemma_trim_start_at(s, start);
        let t = s.subrange(start, s.len() as int);
        assert(forall|j: int|
            end - start <= j < t.len() ==> #[trigger] t[j] == s[j + start] && is_unicode_ws(t[j]));
        lemma_trim_end_at(t, end - start);
        assert(t.subrange(0, end - start) =~= s.subrange(start, end));
    }
}

/// The image reference a single line yields, if any: a line whose trimmed
/// length exceeds three and which opens with `![` gives up its text between
/// the marker and the final character.
pub open spec fn spec_image_ref(line: Seq<char>) -> Option<Seq<char>> {
    if trim_ws(line).len() > 3 && line[0] == '!' && line[1] == '[' {
        Some(line.subrange(2, line.len() - 1))
    } else {
        None
    }
}

/// Extracts the image reference of one line, if the line carries one.
pub fn extract_image_ref(line: &str) -> (r: Option<String>)
    ensures
        match r {
            Some(p) => spec_image_ref(line@) == Some(p@),
            None => spec_image_ref(line@) is None,
        },
{
    let m = chars_of(line);
    let n = m.len();
    let mut start: usize = 0;
    while start < n && m[start].is_whitespace()
        invariant
            start <= n,
            n == m@.len(),
            m@ == line@,
            forall|j: int| 0 <= j < start ==> is_unicode_ws(m@[j]),
        decreases n - start,
    {
        start = start + 1;
    }
    let mut end: usize = n;
    while end > start && m[end - 1].is_whitespace()
        invariant
            start <= end <= n,
            n == m@.len(),
            m@ == line@,
            forall|j: int| end <= j < n ==> is_unicode_ws(m@[j]),
        decreases end,
    {
        end = end - 1;
    }
    proof {
        if start == end && start < n {
            assert(!is_unicode_ws(m@[start as int]));
            assert(is_unicode_ws(m@[start as int]));
            assert(false);
        }
        lemma_trim_range(line@, start as int, end as int);
    }
    if end - start > 3 && line.get_char(0) == '!' && line.get_char(1) == '[' {
        Some(String::from_str(line.substring_char(2, n - 1)))
    } else {
        None
    }
}

/// All image references of a document, in order of appearance, duplicates
/// kept.
pub open spec fn spec_image_refs(lines: Seq<Seq<char>>) -> Seq<Seq<char>>
    decreases lines.len(),
{
    if lines.len() == 0 {
        Seq::empty()
    } else {
        let rest = spec_image_refs(lines.drop_last());
        match spec_image_ref(lines.last()) {
            Some(p) => rest.push(p),
            None => rest,
        }
    }
}

/// Collects the image references of all lines, in order, duplicates kept.
pub fn image_refs(lines: &Vec<String>) -> (r: Vec<String>)
    ensures
        r.deep_view() == spec_image_refs(lines.deep_view()),
{
    let mut r: Vec<String> = Vec::new();
    let mut i: usize = 0;
    while i < lines.len()
        invariant
            i <= lines@.len(),
            r.deep_view() == spec_image_refs(lines.deep_view().subrange(0, i as int)),
        decreases lines@.len() - i,
    {
        let ghost prefix = lines.deep_view().subrange(0, i as int);
        let ghost prefix1 = lines.deep_view().subrange(0, i + 1);
        proof {
            assert(prefix1.drop_last() =~= prefix);
            assert(prefix1.last() == lines.deep_view()[i as int]);
            assert(lines.deep_view()[i as int] == lines@[i as int]@);
        }
        let ghost old_dv = r.deep_view();
        match extract_image_ref(lines[i].as_str()) {
            Some(p) => {
                let ghost pv = p@;
                r.push(p);
                proof {
                    assert(r.deep_view() =~= old_dv.push(pv));
                }
            },
            None => {},
        }
        i = i + 1;
    }
    proof {
        assert(lines.deep_view().subrange(0, lines@.len() as int) =~= lines.deep_view());
    }
    r
}

pub open spec fn is_digit(c: char) -> bool {
    '0' <= c && c <= '9'
}

pub open spec fn all_digits(s: Seq<char>) -> bool {
    forall|i: int| 0 <= i < s.len() ==> is_digit(#[trigger] s[i])
}

pub open spec fn digit_val(c: char) -> int {
    c as int - '0' as int
}

pub open spec fn pow10(n: nat) -> int
    decreases n,
{
    if n == 0 {
        1
    } else {
        10 * pow10((n - 1) as nat)
    }
}

/// The number a string of decimal digits writes.
pub open spec fn num_of(s: Seq<char>) -> int
    decreases s.len(),
{
    if s.len() == 0 {
        0
    } else {
        digit_val(s[0]) * pow10((s.len() - 1) as nat) + num_of(s.drop_first())
    }
}

proof fn lemma_pow10_pos(n: nat)
    ensures
        pow10(n) >= 1,
    decreases n,
{
    if n > 0 {
        lemma_pow10_pos((n - 1) as nat);
    }
}

proof fn lemma_all_digits_drop_first(s: Seq<char>)
    requires
        all_digits(s),
        s.len() > 0,
    ensures
        all_digits(s.drop_first()),
{
    assert forall|i: int| 0 <= i < s.drop_first().len() implies is_digit(
        #[trigger] s.drop_first()[i],
    ) by {
        assert(s.drop_first()[i] == s[i + 1]);
    }
}

proof fn lemma_num_bounds(s: Seq<char>)
    requires
        all_digits(s),
    ensures
        0 <= num_of(s) < pow10(s.len()),
    decreases s.len(),
{
    if s.len() > 0 {
        let d = digit_val(s[0]);
        assert(0 <= d <= 9);
        lemma_all_digits_drop_first(s);
        lemma_num_bounds(s.drop_first());
        let p = pow10((s.len() - 1) as nat);
        lemma_pow10_pos((s.len() - 1) as nat);
        assert(0 <= d * p <= 9 * p) by (nonlinear_arith)
            requires
                0 <= d <= 9,
                p >= 1,
        ;
    }
}

proof fn lemma_pow10_add(a: nat, b: nat)
    ensures
        pow10(a + b) == pow10(a) * pow10(b),
    decreases a,
{
    if a > 0 {
        lemma_pow10_add((a - 1) as nat, b);
        let q = pow10((a - 1) as nat);
        let pb = pow10(b);
        assert(10 * (q * pb) == (10 * q) * pb) by (nonlinear_arith);
    }
}

proof fn lemma_num_concat(s: Seq<char>, t: Seq<char>)
    ensures
        num_of(s + t) == num_of(s) * pow10(t.len()) + num_of(t),
    decreases s.len(),
{
    if s.len() == 0 {
        assert(s + t =~= t);
    } else {
        assert((s + t).drop_first() =~= s.drop_first() + t);
        lemma_num_concat(s.drop_first(), t);
        lemma_pow10_add((s.len() - 1) as nat, t.len());
        let d = digit_val(s[0]);
        let p1 = pow10((s.len() - 1) as nat);
        let pt = pow10(t.len());
        assert((s + t)[0] == s[0]);
        assert(((s + t).len() - 1) as nat == (s.len() - 1) as nat + t.len());
        assert(d * (p1 * pt) + num_of(s.drop_first()) * pt == (d * p1 + num_of(s.drop_first()))
            * pt) by (nonlinear_arith);
    }
}

/// On digit strings of equal length, lexicographic order is numeric order.
proof fn lemma_lex_is_numeric(a: Seq<char>, b: Seq<char>)
    requires
        all_digits(a),
        all_digits(b),
        a.len() == b.len(),
    ensures
        lex_le(a, b) <==> num_of(a) <= num_of(b),
    decreases a.len(),
{
    if a.len() > 0 {
        let da = digit_val(a[0]);
        let db = digit_val(b[0]);
        let p = pow10((a.len() - 1) as nat);
        lemma_all_digits_drop_first(a);
        lemma_all_digits_drop_first(b);
        lemma_num_bounds(a.drop_first());
        lemma_num_bounds(b.drop_first());
        lemma_pow10_pos((a.len() - 1) as nat);
        if a[0] == b[0] {
            lemma_lex_is_numeric(a.drop_first(), b.drop_first());
        } else {
            assert(db * p - da * p == (db - da) * p) by (nonlinear_arith);
            if da < db {
                assert((db - da) * p >= p) by (nonlinear_arith)
                    requires
                        db - da >= 1,
                        p >= 1,
                ;
            } else {
                assert((db - da) * p <= -p) by (nonlinear_arith)
                    requires
                        db - da <= -1,
                        p >= 1,
                ;
            }
        }
    }
}

/// A date line whose eight non-dot characters are all decimal digits.
pub open spec fn digits_dateline(l: Seq<char>) -> bool {
    &&& spec_valid_dateline(l)
    &&& all_digits(l.subrange(0, 2))
    &&& all_digits(l.subrange(3, 5))
    &&& all_digits(l.subrange(6, 10))
}

pub open spec fn spec_year(l: Seq<char>) -> int {
    num_of(l.subrange(6, 10))
}

pub open spec fn spec_month(l: Seq<char>) -> int {
    num_of(l.subrange(3, 5))
}

pub open spec fn spec_day(l: Seq<char>) -> int {
    num_of(l.subrange(0, 2))
}

/// Chronological order of two date lines: by year, then month, then day.
pub open spec fn chron_le(a: Seq<char>, b: Seq<char>) -> bool {
    ||| spec_year(a) < spec_year(b)
    ||| (spec_year(a) == spec_year(b) && spec_month(a) < spec_month(b))
    ||| (spec_year(a) == spec_year(b) && spec_month(a) == spec_month(b) && spec_day(a)
        <= spec_day(b))
}

proof fn lemma_key_value(l: Seq<char>)
    requires
        digits_dateline(l),
    ensures
        num_of(spec_date_key(l)) == spec_year(l) * 10000 + spec_month(l) * 100 + spec_day(l),
        all_digits(spec_date_key(l)),
        spec_date_key(l).len() == 8,
{
    let y = l.subrange(6, 10);
    let m = l.subrange(3, 5);
    let d = l.subrange(0, 2);
    assert(spec_date_key(l) =~= y + (m + d));
    lemma_num_concat(y, m + d);
    lemma_num_concat(m, d);
    assert(pow10(0) == 1);
    assert(pow10(1) == 10);
    assert(pow10(2) == 100);
    assert(pow10(3) == 1000);
    assert(pow10(4) == 10000);
    assert forall|i: int| 0 <= i < (y + (m + d)).len() implies is_digit(
        #[trigger] (y + (m + d))[i],
    ) by {
        if i < 4 {
            assert((y + (m + d))[i] == y[i]);
        } else if i < 6 {
            assert((y + (m + d))[i] == m[i - 4]);
        } else {
            assert((y + (m + d))[i] == d[i - 6]);
        }
    }
}

/// The derived key sorts by date: for two digit-valid `DD.MM.YYYY` lines,
/// the `YYYYMMDD` keys stand in lexicographic order exactly when the dates
/// stand in chronological order. With the order of `sort_entries`, a
/// manifest sorted descending by key is sorted newest first.
pub proof fn lemma_date_key_order_is_chronological(a: Seq<char>, b: Seq<char>)
    requires
        digits_dateline(a),
        digits_dateline(b),
    ensures
        lex_le(spec_date_key(a), spec_date_key(b)) <==> chron_le(a, b),
{
    lemma_key_value(a);
    lemma_key_value(b);
    lemma_lex_is_numeric(spec_date_key(a), spec_date_key(b));
    lemma_num_bounds(a.subrange(3, 5));
    lemma_num_bounds(a.subrange(0, 2));
    lemma_num_bounds(b.subrange(3, 5));
    lemma_num_bounds(b.subrange(0, 2));
    assert(pow10(0) == 1);
    assert(pow10(1) == 10);
    assert(pow10(2) == 100);
}

/// What the parser pulls out of one post: its title, the two date forms and
/// the referenced images.
pub struct PostMetadata {
    pub title: String,
    pub date_display: String,
    pub date_key: String,
    pub image_refs: Vec<String>,
}

/// Parses one post: the last line must be a valid `DD.MM.YYYY` date line,
/// from which the two date forms are derived; every line is scanned for an
/// image reference; the title is the file name stem, taken verbatim.
pub fn parse(raw_text: &str, filename_stem: &str) -> (r: Result<PostMetadata, BuildError>)
    ensures
        r is Ok <==> spec_lines(raw_text@).len() > 0 && spec_valid_dateline(
            spec_lines(raw_text@).last(),
        ),
        r matches Err(e) ==> e matches BuildError::InvalidDateLine(f) && f@ == filename_stem@,
        r matches Ok(m) ==> m.title@ == filename_stem@ && m.date_key@ == spec_date_key(
            spec_lines(raw_text@).last(),
        ) && m.date_display@ == spec_date_display(spec_lines(raw_text@).last())
            && m.image_refs.deep_view() == spec_image_refs(spec_lines(raw_text@)),
{
    let lines = split_lines(raw_text);
    if lines.len() == 0 {
        return Err(BuildError::InvalidDateLine(String::from_str(filename_stem)));
    }
    let last_idx = lines.len() - 1;
    proof {
        assert(lines.deep_view()[last_idx as int] == lines@[last_idx as int]@);
    }
    if !validate_dateline(lines[last_idx].as_str()) {
        return Err(BuildError::InvalidDateLine(String::from_str(filename_stem)));
    }
    let dk = date_key(lines[last_idx].as_str());
    let dd = date_display(lines[last_idx].as_str());
    let refs = image_refs(&lines);
    Ok(
        PostMetadata {
            title: String::from_str(filename_stem),
            date_display: dd,
            date_key: dk,
            image_refs: refs,
        },
    )
}

} // verus!
