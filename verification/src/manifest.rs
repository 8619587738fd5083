use vstd::prelude::*;
use vstd::string::*;
use vstd::seq_lib::*;

verus! {

/// One row of the site manifest: a processed post's title, slug and the two
/// date forms.
pub struct ManifestEntry {
    pub title: String,
    pub slug: String,
    pub date_display: String,
    pub date_key: String,
}

/// The key the manifest is ordered by.
pub open spec fn entry_key(e: ManifestEntry) -> Seq<char> {
    e.date_key@
}

/// Lexicographic order on character sequences, the order `YYYYMMDD` keys
/// sort by.
pub open spec fn lex_le(a: Seq<char>, b: Seq<char>) -> bool
    decreases a.len(),
{
    if a.len() == 0 {
        true
    } else if b.len() == 0 {
        false
    } else if a[0] != b[0] {
        a[0] < b[0]
    } else {
        lex_le(a.drop_first(), b.drop_first())
    }
}

pub proof fn lemma_lex_refl(a: Seq<char>)
    ensures
        lex_le(a, a),
    decreases a.len(),
{
    if a.len() > 0 {
        lemma_lex_refl(a.drop_first());
    }
}

pub proof fn lemma_lex_total(a: Seq<char>, b: Seq<char>)
    ensures
        lex_le(a, b) || lex_le(b, a),
    decreases a.len(),
{
    if a.len() > 0 && b.len() > 0 && a[0] == b[0] {
        lemma_lex_total(a.drop_first(), b.drop_first());
    }
}

pub proof fn lemma_lex_trans(a: Seq<char>, b: Seq<char>, c: Seq<char>)
    requires
        lex_le(a, b),
        lex_le(b, c),
    ensures
        lex_le(a, c),
    decreases a.len(),
{
    if a.len() > 0 && b.len() > 0 && c.len() > 0 {
        if a[0] == b[0] && b[0] == c[0] {
            lemma_lex_trans(a.drop_first(), b.drop_first(), c.drop_first());
        }
    }
}

/// Compares two sequences that agree on their first `i` characters.
proof fn lemma_lex_at(a: Seq<char>, b: Seq<char>, i: int)
    requires
        0 <= i <= a.len(),
        i <= b.len(),
        forall|j: int| 0 <= j < i ==> a[j] == b[j],
    ensures
        i == a.len() ==> lex_le(a, b),
        i < a.len() && i == b.len() ==> !lex_le(a, b),
        i < a.len() && i < b.len() && a[i] < b[i] ==> lex_le(a, b),
        i < a.len() && i < b.len() && b[i] < a[i] ==> !lex_le(a, b),
    decreases i,
{
    if i > 0 {
        lemma_lex_at(a.drop_first(), b.drop_first(), i - 1);
    }
}

/// Lexicographic comparison of two strings: `true` when `a` sorts at or
/// before `b`.
pub fn str_le(a: &str, b: &str) -> (r: bool)
    ensures
        r == lex_le(a@, b@),
{
    let la = a.unicode_len();
    let lb = b.unicode_len();
    let mut i: usize = 0;
    while i < la && i < lb
        invariant
            i <= la,
            i <= lb,
            la == a@.len(),
            lb == b@.len(),
            forall|j: int| 0 <= j < i ==> a@[j] == b@[j],
        decreases la - i,
    {
        let ca = a.get_char(i);
        let cb = b.get_char(i);
        if ca != cb {
            proof {
                lemma_lex_at(a@, b@, i as int);
            }
            return ca < cb;
        }
        i = i + 1;
    }
    proof {
        lemma_lex_at(a@, b@, i as int);
    }
    la <= lb
}

/// The manifest is in descending order: later rows never carry a larger key.
pub open spec fn sorted_desc(s: Seq<ManifestEntry>) -> bool {
    forall|i: int, j: int|
        0 <= i < j < s.len() ==> lex_le(entry_key(s[j]), entry_key(s[i]))
}

/// The rows carrying one particular key, in the order they stand in.
pub open spec fn entries_with_key(s: Seq<ManifestEntry>, k: Seq<char>) -> Seq<ManifestEntry> {
    s.filter(|e: ManifestEntry| e.date_key@ == k)
}

proof fn lemma_filter_empty(k: Seq<char>)
    ensures
        entries_with_key(Seq::empty(), k) == Seq::<ManifestEntry>::empty(),
{
    reveal(Seq::filter);
}

proof fn lemma_filter_singleton(e: ManifestEntry, k: Seq<char>)
    ensures
        entry_key(e) == k ==> entries_with_key(seq![e], k) =~= seq![e],
        entry_key(e) != k ==> entries_with_key(seq![e], k) =~= Seq::<ManifestEntry>::empty(),
{
    reveal_with_fuel(Seq::filter, 2);
    assert(seq![e].drop_last() =~= Seq::<ManifestEntry>::empty());
    assert(Seq::<ManifestEntry>::empty().filter(|x: ManifestEntry| x.date_key@ == k)
        =~= Seq::<ManifestEntry>::empty());
}

proof fn lemma_filter_none(s: Seq<ManifestEntry>, k: Seq<char>)
    requires
        forall|i: int| 0 <= i < s.len() ==> entry_key(#[trigger] s[i]) != k,
    ensures
        entries_with_key(s, k) == Seq::<ManifestEntry>::empty(),
    decreases s.len(),
{
    reveal(Seq::filter);
    if s.len() > 0 {
        lemma_filter_none(s.drop_last(), k);
    }
}

/// Sorts the manifest by its sortable date key, newest first; rows with
/// equal keys keep their relative order, so the sort is stable, and for
/// every key the rows carrying it come out exactly as they went in.
pub fn sort_entries(entries: Vec<ManifestEntry>) -> (r: Vec<ManifestEntry>)
    ensures
        sorted_desc(r@),
        forall|k: Seq<char>| #[trigger] entries_with_key(r@, k) == entries_with_key(entries@, k),
{
    let ghost orig = entries@;
    let mut rest = entries;
    let mut r: Vec<ManifestEntry> = Vec::new();
    proof {
        assert forall|k: Seq<char>|
            #[trigger] entries_with_key(r@, k) + entries_with_key(rest@, k) == entries_with_key(
                orig,
                k,
            ) by {
            lemma_filter_empty(k);
            assert(entries_with_key(r@, k) =~= Seq::<ManifestEntry>::empty());
            assert(Seq::<ManifestEntry>::empty() + entries_with_key(rest@, k)
                =~= entries_with_key(rest@, k));
        }
    }
    while rest.len() > 0
        invariant
            sorted_desc(r@),
            forall|k: Seq<char>|
                #[trigger] entries_with_key(r@, k) + entries_with_key(rest@, k)
                    == entries_with_key(orig, k),
        decreases rest@.len(),
    {
        let ghost rest_before = rest@;
        let e = rest.remove(0);
        proof {
            assert(rest_before =~= seq![e] + rest@);
        }
        let ghost ekey = entry_key(e);
        let mut p: usize = 0;
        loop
            invariant
                p <= r@.len(),
                sorted_desc(r@),
                ekey == entry_key(e),
                forall|q: int| 0 <= q < p ==> lex_le(ekey, entry_key(#[trigger] r@[q])),
            ensures
                p <= r@.len(),
                forall|q: int| 0 <= q < p ==> lex_le(ekey, entry_key(#[trigger] r@[q])),
                p == r@.len() || !lex_le(ekey, entry_key(r@[p as int])),
            decreases r@.len() - p,
        {
            if p == r.len() {
                break;
            }
            let cont = str_le(e.date_key.as_str(), r[p].date_key.as_str());
            if !cont {
                break;
            }
            p = p + 1;
        }
        proof {
            if p < r@.len() {
                lemma_lex_total(ekey, entry_key(r@[p as int]));
                assert(lex_le(entry_key(r@[p as int]), ekey));
                if entry_key(r@[p as int]) == ekey {
                    lemma_lex_refl(ekey);
                    assert(false);
                }
            }
            assert forall|q: int| p <= q < r@.len() implies lex_le(
                entry_key(#[trigger] r@[q]),
                ekey,
            ) && entry_key(r@[q]) != ekey by {
                if q > p {
                    lemma_lex_trans(entry_key(r@[q]), entry_key(r@[p as int]), ekey);
                }
                if entry_key(r@[q]) == ekey {
                    lemma_lex_refl(ekey);
                    assert(lex_le(ekey, entry_key(r@[p as int])));
                    assert(false);
                }
            }
        }
        let ghost r_before = r@;
        r.insert(p, e);
        proof {
            let pre = r_before.subrange(0, p as int);
            let post = r_before.subrange(p as int, r_before.len() as int);
            assert(r_before =~= pre + post);
            assert(r@ =~= pre + seq![e] + post);
            assert forall|i: int, j: int| 0 <= i < j < r@.len() implies lex_le(
                entry_key(r@[j]),
                entry_key(r@[i]),
            ) by {
                let pi = p as int;
                if i < pi && j == pi {
                    assert(r@[i] == r_before[i]);
                    assert(lex_le(ekey, entry_key(r_before[i])));
                } else if i < pi && j > pi {
                    assert(r@[i] == r_before[i] && r@[j] == r_before[j - 1]);
                } else if i == pi && j > pi {
                    assert(r@[j] == r_before[j - 1]);
                    assert(lex_le(entry_key(r_before[j - 1]), ekey));
                } else if i < pi && j < pi {
                    assert(r@[i] == r_before[i] && r@[j] == r_before[j]);
                } else {
                    assert(i > pi && j > pi);
                    assert(r@[i] == r_before[i - 1] && r@[j] == r_before[j - 1]);
                }
            }
            assert forall|k: Seq<char>|
                #[trigger] entries_with_key(r@, k) + entries_with_key(rest@, k)
                    == entries_with_key(orig, k) by {
                Seq::filter_distributes_over_add(pre, post, |x: ManifestEntry| x.date_key@ == k);
                Seq::filter_distributes_over_add(
                    pre + seq![e],
                    post,
                    |x: ManifestEntry| x.date_key@ == k,
                );
                Seq::filter_distributes_over_add(pre, seq![e], |x: ManifestEntry| x.date_key@ == k);
                Seq::filter_distributes_over_add(seq![e], rest@, |x: ManifestEntry| x.date_key@ == k);
                lemma_filter_singleton(e, k);
                assert(entries_with_key(rest_before, k) == entries_with_key(seq![e], k)
                    + entries_with_key(rest@, k));
                if k == ekey {
                    lemma_filter_none(post, k);
                    assert(entries_with_key(r_before, k) =~= entries_with_key(pre, k));
                    assert(entries_with_key(r@, k) =~= entries_with_key(pre, k) + seq![e]);
                    assert(entries_with_key(r_before, k) + (entries_with_key(seq![e], k)
                        + entries_with_key(rest@, k)) =~= (entries_with_key(pre, k) + seq![e])
                        + entries_with_key(rest@, k));
                } else {
                    assert(entries_with_key(seq![e], k) =~= Seq::<ManifestEntry>::empty());
                    assert(entries_with_key(r@, k) =~= entries_with_key(pre, k)
                        + entries_with_key(post, k));
                    assert(entries_with_key(r@, k) =~= entries_with_key(r_before, k));
                    assert(entries_with_key(rest_before, k) =~= entries_with_key(rest@, k));
                }
            }
        }
    }
    proof {
        assert forall|k: Seq<char>| #[trigger] entries_with_key(r@, k) == entries_with_key(
            orig,
            k,
        ) by {
            lemma_filter_empty(k);
            assert(rest@ =~= Seq::<ManifestEntry>::empty());
            assert(entries_with_key(r@, k) + Seq::<ManifestEntry>::empty() =~= entries_with_key(
                r@,
                k,
            ));
        }
    }
    r
}

} // verus!
