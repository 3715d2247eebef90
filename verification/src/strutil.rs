//! String helpers the query engine needs: ASCII case-insensitive comparison,
//! whitespace tokenization of attribute values, and lexicographic ordering
//! for rendering attribute bags.

use vstd::prelude::*;

verus! {

/// ASCII lowercasing of a single character: `'A'..='Z'` map to
/// `'a'..='z'`, every other character is unchanged.
pub open spec fn lower_char(c: char) -> char {
    if 'A' <= c && c <= 'Z' {
        ((c as u32 + 32) as u8) as char
    } else {
        c
    }
}

/// ASCII lowercasing of a character sequence.
pub open spec fn lower(s: Seq<char>) -> Seq<char> {
    s.map_values(|c: char| lower_char(c))
}

/// ASCII case-insensitive equality of two character sequences.
pub open spec fn eq_ci(a: Seq<char>, b: Seq<char>) -> bool {
    lower(a) == lower(b)
}

/// Executable ASCII lowercasing of one character.
pub fn lower_char_exec(c: char) -> (r: char)
    ensures
        r == lower_char(c),
{
    if 'A' <= c && c <= 'Z' {
        ((c as u32 + 32) as u8) as char
    } else {
        c
    }
}

/// ASCII whitespace: space, tab, line feed, carriage return, form feed.
pub open spec fn is_ws(c: char) -> bool {
    c == ' ' || c == '\t' || c == '\n' || c == '\r' || c == '\x0C'
}

/// Executable ASCII whitespace test.
pub fn is_ws_exec(c: char) -> (r: bool)
    ensures
        r == is_ws(c),
{
    c == ' ' || c == '\t' || c == '\n' || c == '\r' || c == '\x0C'
}

/// The parts of `s` delimited by ASCII whitespace characters.  As with
/// splitting on a separator, consecutive separators yield empty parts, and
/// there is always at least one part (the empty sequence splits into one
/// empty part).
pub open spec fn split_ws(s: Seq<char>) -> Seq<Seq<char>>
    decreases s.len(),
{
    if s.len() == 0 {
        seq![s]
    } else if is_ws(s[0]) {
        seq![Seq::<char>::empty()] + split_ws(s.drop_first())
    } else {
        let rest = split_ws(s.drop_first());
        seq![seq![s[0]] + rest[0]] + rest.drop_first()
    }
}

/// Splitting always yields at least one part.
pub proof fn lemma_split_ws_len(s: Seq<char>)
    ensures
        split_ws(s).len() >= 1,
    decreases s.len(),
{
    if s.len() != 0 {
        lemma_split_ws_len(s.drop_first());
    }
}

/// A string with no whitespace in it splits into just itself.
pub proof fn lemma_split_ws_solid(s: Seq<char>)
    requires
        forall|j: int| 0 <= j < s.len() ==> !is_ws(s[j]),
    ensures
        split_ws(s) == seq![s],
    decreases s.len(),
{
    if s.len() == 0 {
        assert(split_ws(s) =~= seq![s]);
    } else {
        lemma_split_ws_solid(s.drop_first());
        assert(seq![s[0]] + s.drop_first() =~= s);
        assert(split_ws(s) =~= seq![s]);
    }
}

/// Splitting at the first whitespace character: the part before it is the
/// first part, and the remainder after it splits independently.
pub proof fn lemma_split_ws_at(s: Seq<char>, k: int)
    requires
        0 <= k < s.len(),
        is_ws(s[k]),
        forall|j: int| 0 <= j < k ==> !is_ws(s[j]),
    ensures
        split_ws(s) == seq![s.subrange(0, k)] + split_ws(s.subrange(k + 1, s.len() as int)),
    decreases k,
{
    if k == 0 {
        assert(s.subrange(0, 0) =~= Seq::<char>::empty());
        assert(s.subrange(1, s.len() as int) =~= s.drop_first());
        assert(split_ws(s) =~= seq![s.subrange(0, 0)] + split_ws(
            s.subrange(1, s.len() as int),
        ));
    } else {
        let t = s.drop_first();
        lemma_split_ws_at(t, k - 1);
        lemma_split_ws_len(t.subrange(k, t.len() as int));
        let rest = split_ws(t);
        assert(rest[0] == t.subrange(0, k - 1));
        assert(seq![s[0]] + t.subrange(0, k - 1) =~= s.subrange(0, k));
        assert(t.subrange(k, t.len() as int) =~= s.subrange(k + 1, s.len() as int));
        assert(split_ws(s) =~= seq![s.subrange(0, k)] + split_ws(
            s.subrange(k + 1, s.len() as int),
        ));
    }
}

/// Lexicographic order on character sequences (by code point, shorter
/// prefixes first): `a` sorts at or before `b`.
pub open spec fn lex_le(a: Seq<char>, b: Seq<char>) -> bool
    decreases a.len(),
{
    if a.len() == 0 {
        true
    } else if b.len() == 0 {
        false
    } else if a[0] == b[0] {
        lex_le(a.drop_first(), b.drop_first())
    } else {
        (a[0] as u32) < (b[0] as u32)
    }
}

/// Executable lexicographic comparison of two strings.
#[verifier::loop_isolation(false)]
pub fn lex_le_exec(a: &str, b: &str) -> (r: bool)
    ensures
        r == lex_le(a@, b@),
{
    let a_len = a.unicode_len();
    let b_len = b.unicode_len();
    let mut i: usize = 0;
    proof {
        assert(a@.skip(0) =~= a@);
        assert(b@.skip(0) =~= b@);
    }
    loop
        invariant
            a_len == a@.len(),
            b_len == b@.len(),
            i <= a_len,
            i <= b_len,
            forall|j: int| 0 <= j < i ==> a@[j] == b@[j],
            lex_le(a@, b@) == lex_le(a@.skip(i as int), b@.skip(i as int)),
        decreases a_len - i,
    {
        proof {
            assert(a@.skip(i as int).len() == a_len - i);
            assert(b@.skip(i as int).len() == b_len - i);
        }
        if i == a_len {
            return true;
        }
        if i == b_len {
            return false;
        }
        let ca = a.get_char(i);
        let cb = b.get_char(i);
        proof {
            assert(a@.skip(i as int)[0] == ca);
            assert(b@.skip(i as int)[0] == cb);
        }
        if ca != cb {
            proof {
                assert(lex_le(a@.skip(i as int), b@.skip(i as int)) == ((ca as u32) < (
                cb as u32)));
            }
            return (ca as u32) < (cb as u32);
        }
        proof {
            assert(a@.skip(i as int).drop_first() =~= a@.skip(i + 1));
            assert(b@.skip(i as int).drop_first() =~= b@.skip(i + 1));
        }
        i = i + 1;
    }
}

/// The views of a vector of strings.
pub open spec fn views_of(v: Seq<String>) -> Seq<Seq<char>> {
    v.map_values(|s: String| s@)
}

/// The views of a vector of strings, elementwise.
pub proof fn lemma_views_of(v: Seq<String>)
    ensures
        views_of(v).len() == v.len(),
        forall|i: int| 0 <= i < v.len() ==> #[trigger] views_of(v)[i] == v[i]@,
{
}

/// `x` inserted into `s` after every element that sorts at or before it.
pub open spec fn insert_lex(x: Seq<char>, s: Seq<Seq<char>>) -> Seq<Seq<char>>
    decreases s.len(),
{
    if s.len() == 0 {
        seq![x]
    } else if lex_le(s[0], x) {
        seq![s[0]] + insert_lex(x, s.drop_first())
    } else {
        seq![x] + s
    }
}

/// Insertion sort of a sequence of strings into lexicographic order.
pub open spec fn sort_lex(s: Seq<Seq<char>>) -> Seq<Seq<char>>
    decreases s.len(),
{
    if s.len() == 0 {
        s
    } else {
        insert_lex(s[0], sort_lex(s.drop_first()))
    }
}

/// Where the insertion lands: if the first `j` elements sort at or before
/// `x` and the `j`-th (if any) does not, `x` goes at position `j`.
pub proof fn lemma_insert_lex_at(x: Seq<char>, s: Seq<Seq<char>>, j: int)
    requires
        0 <= j <= s.len(),
        forall|m: int| 0 <= m < j ==> lex_le(#[trigger] s[m], x),
        j < s.len() ==> !lex_le(s[j], x),
    ensures
        insert_lex(x, s) == s.take(j) + seq![x] + s.skip(j),
    decreases j,
{
    if j == 0 {
        if s.len() == 0 {
            assert(insert_lex(x, s) =~= s.take(0) + seq![x] + s.skip(0));
        } else {
            assert(insert_lex(x, s) =~= s.take(0) + seq![x] + s.skip(0));
        }
    } else {
        let t = s.drop_first();
        assert(forall|m: int| 0 <= m < j - 1 ==> lex_le(#[trigger] t[m], x)) by {
            assert(forall|m: int| 0 <= m < j - 1 ==> t[m] == s[m + 1]);
        }
        lemma_insert_lex_at(x, t, j - 1);
        assert(insert_lex(x, s) =~= seq![s[0]] + (t.take(j - 1) + seq![x] + t.skip(j - 1)));
        assert(seq![s[0]] + (t.take(j - 1) + seq![x] + t.skip(j - 1)) =~= s.take(j) + seq![x]
            + s.skip(j));
    }
}

/// Inserts `x` into the already-sorted `v`, keeping it sorted; the result's
/// views are exactly [`insert_lex`] of the inputs'.
#[verifier::loop_isolation(false)]
pub fn insert_string(x: &String, v: Vec<String>) -> (r: Vec<String>)
    ensures
        views_of(r@) == insert_lex(x@, views_of(v@)),
{
    let ghost sv = views_of(v@);
    proof {
        lemma_views_of(v@);
    }
    let mut out: Vec<String> = Vec::new();
    let n = v.len();
    let mut j: usize = 0;
    proof {
        lemma_views_of(out@);
        assert(views_of(out@) =~= sv.take(0));
    }
    let mut more = j < n && lex_le_exec(v[j].as_str(), x.as_str());
    while more
        invariant
            j <= n,
            more ==> j < n && lex_le(sv[j as int], x@),
            !more ==> j == n || !lex_le(sv[j as int], x@),
            views_of(out@) =~= sv.take(j as int),
            forall|m: int| 0 <= m < j ==> lex_le(#[trigger] sv[m], x@),
        decreases n - j,
    {
        out.push(v[j].clone());
        proof {
            lemma_views_of(out@);
            assert(views_of(out@) =~= sv.take(j + 1));
        }
        j = j + 1;
        more = j < n && lex_le_exec(v[j].as_str(), x.as_str());
    }
    proof {
        lemma_insert_lex_at(x@, sv, j as int);
    }
    out.push(x.clone());
    proof {
        lemma_views_of(out@);
        assert(sv.subrange(j as int, j as int) =~= Seq::<Seq<char>>::empty());
        assert(views_of(out@) =~= sv.take(j as int) + seq![x@] + sv.subrange(
            j as int,
            j as int,
        ));
    }
    let mut m: usize = j;
    while m < n
        invariant
            j <= m <= n,
            n == v@.len(),
            views_of(out@) =~= sv.take(j as int) + seq![x@] + sv.subrange(j as int, m as int),
        decreases n - m,
    {
        let ghost prev = out@;
        out.push(v[m].clone());
        proof {
            lemma_views_of(prev);
            lemma_views_of(out@);
            assert(out@.len() == prev.len() + 1);
            assert(out@[out@.len() - 1] == v@[m as int]);
            assert(sv[m as int] == v@[m as int]@);
            assert(forall|i: int| 0 <= i < prev.len() ==> out@[i] == prev[i]);
            assert(views_of(prev) =~= sv.take(j as int) + seq![x@] + sv.subrange(
                j as int,
                m as int,
            ));
            assert forall|i: int| 0 <= i < views_of(out@).len() implies views_of(out@)[i]
                == (sv.take(j as int) + seq![x@] + sv.subrange(j as int, m + 1))[i] by {
                assert(views_of(out@)[i] == out@[i]@);
                if i < prev.len() {
                    assert(out@[i] == prev[i]);
                    assert(views_of(prev)[i] == prev[i]@);
                }
            }
            assert(views_of(out@) =~= sv.take(j as int) + seq![x@] + sv.subrange(
                j as int,
                m + 1,
            ));
        }
        m = m + 1;
    }
    proof {
        assert(sv.subrange(j as int, n as int) =~= sv.skip(j as int));
        assert(views_of(out@) =~= insert_lex(x@, sv));
    }
    out
}

/// Sorts a vector of strings into lexicographic order; the result's views
/// are exactly [`sort_lex`] of the input's.
#[verifier::loop_isolation(false)]
pub fn sort_strings(v: &Vec<String>) -> (r: Vec<String>)
    ensures
        views_of(r@) == sort_lex(views_of(v@)),
{
    let ghost sv = views_of(v@);
    let mut out: Vec<String> = Vec::new();
    let n = v.len();
    let mut idx: usize = n;
    proof {
        lemma_views_of(v@);
        lemma_views_of(out@);
        assert(sv.skip(n as int) =~= Seq::<Seq<char>>::empty());
        assert(views_of(out@) =~= sort_lex(sv.skip(n as int)));
    }
    while idx > 0
        invariant
            idx <= n,
            n == v@.len(),
            views_of(out@) =~= sort_lex(sv.skip(idx as int)),
        decreases idx,
    {
        idx = idx - 1;
        let out2 = insert_string(&v[idx], out);
        out = out2;
        proof {
            let t = sv.skip(idx as int);
            assert(sv.len() == v@.len());
            assert(t[0] == sv[idx as int]);
            assert(t.drop_first() =~= sv.skip(idx + 1));
            assert(views_of(out@) =~= sort_lex(sv.skip(idx as int)));
        }
    }
    proof {
        assert(sv.skip(0) =~= sv);
    }
    out
}

/// Executable exact string equality, decided character by character.
pub fn str_eq(a: &str, b: &str) -> (r: bool)
    ensures
        r == (a@ == b@),
{
    let a_len = a.unicode_len();
    let b_len = b.unicode_len();
    if a_len != b_len {
        return false;
    }
    let mut i: usize = 0;
    while i < a_len
        invariant
            a_len == a@.len(),
            b_len == b@.len(),
            a_len == b_len,
            i <= a_len,
            forall|j: int| 0 <= j < i ==> a@[j] == b@[j],
        decreases a_len - i,
    {
        if a.get_char(i) != b.get_char(i) {
            return false;
        }
        i = i + 1;
    }
    assert(a@ =~= b@);
    true
}

/// Executable ASCII case-insensitive string comparison.
pub fn str_eq_ci(a: &str, b: &str) -> (r: bool)
    ensures
        r == eq_ci(a@, b@),
{
    let a_len = a.unicode_len();
    let b_len = b.unicode_len();
    if a_len != b_len {
        assert(lower(a@).len() != lower(b@).len());
        return false;
    }
    let mut i: usize = 0;
    while i < a_len
        invariant
            a_len == a@.len(),
            b_len == b@.len(),
            a_len == b_len,
            i <= a_len,
            forall|j: int| 0 <= j < i ==> lower(a@)[j] == lower(b@)[j],
        decreases a_len - i,
    {
        let ca = a.get_char(i);
        let cb = b.get_char(i);
        if lower_char_exec(ca) != lower_char_exec(cb) {
            assert(lower(a@)[i as int] != lower(b@)[i as int]);
            return false;
        }
        i = i + 1;
    }
    assert(lower(a@) =~= lower(b@));
    true
}

} // verus!
