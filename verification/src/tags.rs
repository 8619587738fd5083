use vstd::prelude::*;
use vstd::string::*;
use crate::strutil::{chars_of, string_from_range};

verus! {

/// Whether std counts a character as whitespace; the result of
/// `char::is_whitespace`, which depends on the character alone.
pub uninterp spec fn is_unicode_ws(c: char) -> bool;

/// Relies on `char::is_whitespace` from std: true exactly for the
/// characters with the Unicode `White_Space` property, a function of the
/// character alone.
pub assume_specification[ char::is_whitespace ](c: char) -> (r: bool)
    ensures
        r == is_unicode_ws(c),
;

/// The first position at or after `i` holding whitespace, or the length.
pub open spec fn find_ws(s: Seq<char>, i: int) -> int
    decreases s.len() - i,
{
    if i < 0 || i >= s.len() {
        s.len() as int
    } else if is_unicode_ws(s[i]) {
        i
    } else {
        find_ws(s, i + 1)
    }
}

proof fn lemma_find_ws_bounds(s: Seq<char>, i: int)
    requires
        0 <= i <= s.len(),
    ensures
        i <= find_ws(s, i) <= s.len(),
    decreases s.len() - i,
{
    if i < s.len() && !is_unicode_ws(s[i]) {
        lemma_find_ws_bounds(s, i + 1);
    }
}

proof fn lemma_find_ws_range(s: Seq<char>, i: int, k: int)
    requires
        0 <= i <= k <= s.len(),
        forall|j: int| i <= j < k ==> !is_unicode_ws(s[j]),
        k < s.len() ==> is_unicode_ws(s[k]),
    ensures
        find_ws(s, i) == k,
    decreases k - i,
{
    if i < k {
        lemma_find_ws_range(s, i + 1, k);
    }
}

#[via_fn]
proof fn spec_split_ws_dec(s: Seq<char>) {
    if s.len() > 0 && !is_unicode_ws(s[0]) {
        lemma_find_ws_bounds(s, 1);
    }
}

/// The whitespace-separated tokens of a string: the maximal runs of
/// non-whitespace characters, in order.
pub open spec fn spec_split_ws(s: Seq<char>) -> Seq<Seq<char>>
    decreases s.len(),
    via spec_split_ws_dec
{
    if s.len() == 0 {
        Seq::empty()
    } else if is_unicode_ws(s[0]) {
        spec_split_ws(s.drop_first())
    } else {
        let k = find_ws(s, 0);
        seq![s.subrange(0, k)] + spec_split_ws(s.subrange(k, s.len() as int))
    }
}

/// A token with every leading `#` removed.
pub open spec fn strip_hashes(t: Seq<char>) -> Seq<char>
    decreases t.len(),
{
    if t.len() > 0 && t[0] == '#' {
        strip_hashes(t.drop_first())
    } else {
        t
    }
}

proof fn lemma_strip_hashes_at(t: Seq<char>, h: int)
    requires
        0 <= h <= t.len(),
        forall|j: int| 0 <= j < h ==> t[j] == '#',
        h < t.len() ==> t[h] != '#',
    ensures
        strip_hashes(t) == t.subrange(h, t.len() as int),
    decreases h,
{
    if h == 0 {
        assert(t.subrange(0, t.len() as int) =~= t);
    } else {
        let u = t.drop_first();
        lemma_strip_hashes_at(u, h - 1);
        assert(u.subrange(h - 1, u.len() as int) =~= t.subrange(h, t.len() as int));
    }
}

/// The tags of a token list: the tokens opening with `#`, each with its
/// leading `#` run removed, in order.
pub open spec fn spec_tags(tokens: Seq<Seq<char>>) -> Seq<Seq<char>>
    decreases tokens.len(),
{
    if tokens.len() == 0 {
        Seq::empty()
    } else {
        let rest = spec_tags(tokens.drop_last());
        let t = tokens.last();
        if t.len() > 0 && t[0] == '#' {
            rest.push(strip_hashes(t))
        } else {
            rest
        }
    }
}

/// Splits a string into its whitespace-separated tokens.
fn split_ws(s: &str) -> (r: Vec<String>)
    ensures
        r.deep_view() == spec_split_ws(s@),
{
    let m = chars_of(s);
    let n = m.len();
    let mut out: Vec<String> = Vec::new();
    let mut pos: usize = 0;
    proof {
        assert(s@.subrange(0, n as int) =~= s@);
        assert(out.deep_view() =~= Seq::<Seq<char>>::empty());
        assert(Seq::<Seq<char>>::empty() + spec_split_ws(s@) =~= spec_split_ws(s@));
    }
    while pos < n
        invariant
            pos <= n,
            n == m@.len(),
            m@ == s@,
            spec_split_ws(s@) == out.deep_view() + spec_split_ws(
                s@.subrange(pos as int, n as int),
            ),
        decreases n - pos,
    {
        let ghost rem = s@.subrange(pos as int, n as int);
        if m[pos].is_whitespace() {
            proof {
                assert(rem.drop_first() =~= s@.subrange(pos + 1, n as int));
            }
            pos = pos + 1;
        } else {
            let mut i: usize = pos;
            while i < n && !m[i].is_whitespace()
                invariant
                    pos <= i <= n,
                    n == m@.len(),
                    m@ == s@,
                    forall|j: int| pos <= j < i ==> !is_unicode_ws(m@[j]),
                decreases n - i,
            {
                i = i + 1;
            }
            proof {
                assert(forall|j: int| 0 <= j < i - pos ==> !is_unicode_ws(rem[j]));
                if i < n {
                    assert(is_unicode_ws(rem[i - pos]));
                }
                lemma_find_ws_range(rem, 0, i - pos as int);
            }
            let token = string_from_range(&m, pos, i);
            let ghost old_dv = out.deep_view();
            proof {
                assert(token@ =~= rem.subrange(0, i - pos as int));
                assert(rem.subrange(i - pos as int, rem.len() as int) =~= s@.subrange(
                    i as int,
                    n as int,
                ));
                assert(spec_split_ws(rem) == seq![token@] + spec_split_ws(
                    s@.subrange(i as int, n as int),
                ));
            }
            out.push(token);
            proof {
                assert(out.deep_view() =~= old_dv.push(token@));
                assert(old_dv.push(token@) + spec_split_ws(s@.subrange(i as int, n as int))
                    =~= old_dv + spec_split_ws(rem));
            }
            pos = i;
        }
    }
    proof {
        assert(s@.subrange(pos as int, n as int) =~= Seq::<char>::empty());
        assert(out.deep_view() + Seq::<Seq<char>>::empty() =~= out.deep_view());
    }
    out
}

/// Removes the leading `#` run of a token known to start with `#`.
fn strip_hashes_exec(t: &str) -> (r: String)
    ensures
        r@ == strip_hashes(t@),
{
    let m = chars_of(t);
    let n = m.len();
    let mut h: usize = 0;
    while h < n && m[h] == '#'
        invariant
            h <= n,
            n == m@.len(),
            m@ == t@,
            forall|j: int| 0 <= j < h ==> m@[j] == '#',
        decreases n - h,
    {
        h = h + 1;
    }
    let r = string_from_range(&m, h, n);
    proof {
        lemma_strip_hashes_at(t@, h as int);
    }
    r
}

/// The tags of a string: every whitespace-separated token that opens with
/// `#`, with its leading `#` run removed, in order.
pub fn extract_tags(tag_string: &str) -> (r: Vec<String>)
    ensures
        r.deep_view() == spec_tags(spec_split_ws(tag_string@)),
{
    let tokens = split_ws(tag_string);
    let mut r: Vec<String> = Vec::new();
    let mut i: usize = 0;
    while i < tokens.len()
        invariant
            i <= tokens@.len(),
            r.deep_view() == spec_tags(tokens.deep_view().subrange(0, i as int)),
        decreases tokens@.len() - i,
    {
        let ghost prefix = tokens.deep_view().subrange(0, i as int);
        let ghost prefix1 = tokens.deep_view().subrange(0, i + 1);
        proof {
            assert(prefix1.drop_last() =~= prefix);
            assert(prefix1.last() == tokens.deep_view()[i as int]);
            assert(tokens.deep_view()[i as int] == tokens@[i as int]@);
        }
        let t = &tokens[i];
        let ghost old_dv = r.deep_view();
        if t.as_str().unicode_len() > 0 && t.as_str().get_char(0) == '#' {
            let tag = strip_hashes_exec(t.as_str());
            let ghost tagv = tag@;
            r.push(tag);
            proof {
                assert(r.deep_view() =~= old_dv.push(tagv));
            }
        }
        i = i + 1;
    }
    proof {
        assert(tokens.deep_view().subrange(0, tokens@.len() as int) =~= tokens.deep_view());
    }
    r
}

} // verus!
