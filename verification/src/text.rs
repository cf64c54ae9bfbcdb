//! Character-level text utilities: splitting on a separator, whitespace
//! trimming, substring replacement and paragraph joining.  These carry the
//! field normalizations of the document model and the entry-path classifier.

use vstd::prelude::*;
use vstd::string::*;

verus! {

/// Equality of two string slices, character by character.
pub fn str_eq(a: &str, b: &str) -> (r: bool)
    ensures
        r == (a@ == b@),
{
    let na = a.unicode_len();
    let nb = b.unicode_len();
    if na != nb {
        return false;
    }
    let mut i: usize = 0;
    while i < na
        invariant
            na == a@.len(),
            na == b@.len(),
            i <= na,
            forall|k: int| 0 <= k < i ==> a@[k] == b@[k],
        decreases na - i,
    {
        if a.get_char(i) != b.get_char(i) {
            return false;
        }
        i += 1;
    }
    proof {
        assert(a@ =~= b@);
    }
    true
}

/// The whitespace characters recognized by the trimming normalization:
/// the Unicode White_Space set.
pub open spec fn is_space_char(ch: char) -> bool {
    ch == ' ' || ch == '\t' || ch == '\n' || ch == '\r' || ch == '\u{b}' || ch == '\u{c}'
        || ch == '\u{85}' || ch == '\u{a0}' || ch == '\u{1680}' || ch == '\u{2000}'
        || ch == '\u{2001}' || ch == '\u{2002}' || ch == '\u{2003}' || ch == '\u{2004}'
        || ch == '\u{2005}' || ch == '\u{2006}' || ch == '\u{2007}' || ch == '\u{2008}'
        || ch == '\u{2009}' || ch == '\u{200a}' || ch == '\u{2028}' || ch == '\u{2029}'
        || ch == '\u{202f}' || ch == '\u{205f}' || ch == '\u{3000}'
}

fn is_space(ch: char) -> (r: bool)
    ensures
        r == is_space_char(ch),
{
    ch == ' ' || ch == '\t' || ch == '\n' || ch == '\r' || ch == '\u{b}' || ch == '\u{c}'
        || ch == '\u{85}' || ch == '\u{a0}' || ch == '\u{1680}' || ch == '\u{2000}'
        || ch == '\u{2001}' || ch == '\u{2002}' || ch == '\u{2003}' || ch == '\u{2004}'
        || ch == '\u{2005}' || ch == '\u{2006}' || ch == '\u{2007}' || ch == '\u{2008}'
        || ch == '\u{2009}' || ch == '\u{200a}' || ch == '\u{2028}' || ch == '\u{2029}'
        || ch == '\u{202f}' || ch == '\u{205f}' || ch == '\u{3000}'
}

/// Splitting a character sequence at every occurrence of `sep`.  An empty
/// input yields one empty piece; a trailing separator yields a trailing
/// empty piece.
pub open spec fn split_char(s: Seq<char>, sep: char) -> Seq<Seq<char>>
    decreases s.len(),
{
    if s.len() == 0 {
        seq![Seq::<char>::empty()]
    } else if s[0] == sep {
        seq![Seq::<char>::empty()] + split_char(s.skip(1), sep)
    } else {
        let rest = split_char(s.skip(1), sep);
        seq![seq![s[0]] + rest[0]] + rest.skip(1)
    }
}

pub proof fn lemma_split_len(s: Seq<char>, sep: char)
    ensures
        split_char(s, sep).len() >= 1,
    decreases s.len(),
{
    if s.len() != 0 {
        lemma_split_len(s.skip(1), sep);
    }
}

/// A sequence free of the separator splits into itself alone.
pub proof fn lemma_split_whole(s: Seq<char>, sep: char)
    requires
        !s.contains(sep),
    ensures
        split_char(s, sep) == seq![s],
    decreases s.len(),
{
    if s.len() == 0 {
        assert(split_char(s, sep) =~~= seq![s]);
    } else {
        assert(s[0] != sep);
        assert(!s.skip(1).contains(sep)) by {
            if s.skip(1).contains(sep) {
                let i = choose|i: int| 0 <= i < s.skip(1).len() && s.skip(1)[i] == sep;
                assert(s[i + 1] == sep);
            }
        }
        lemma_split_whole(s.skip(1), sep);
        let rest = split_char(s.skip(1), sep);
        assert(rest[0] == s.skip(1));
        assert(seq![s[0]] + rest[0] =~= s);
        assert(rest.skip(1) =~= Seq::<Seq<char>>::empty());
        assert(split_char(s, sep) =~~= seq![s]);
    }
}

/// Splitting a sequence whose first separator stands right after the
/// separator-free prefix `s1` yields `s1` followed by the split of the rest.
pub proof fn lemma_split_prefix(s1: Seq<char>, sep: char, s2: Seq<char>)
    requires
        !s1.contains(sep),
    ensures
        split_char(s1 + seq![sep] + s2, sep) == seq![s1] + split_char(s2, sep),
    decreases s1.len(),
{
    let w = s1 + seq![sep] + s2;
    lemma_split_len(s2, sep);
    if s1.len() == 0 {
        assert(w =~= seq![sep] + s2);
        assert(w[0] == sep);
        assert(w.skip(1) =~= s2);
        assert(split_char(w.skip(1), sep) == split_char(s2, sep));
        assert(split_char(w, sep) =~~= seq![s1] + split_char(s2, sep));
    } else {
        assert(w[0] == s1[0]);
        assert(s1.contains(s1[0]));
        assert(w[0] != sep);
        assert(!s1.skip(1).contains(sep)) by {
            if s1.skip(1).contains(sep) {
                let i = choose|i: int| 0 <= i < s1.skip(1).len() && s1.skip(1)[i] == sep;
                assert(s1[i + 1] == sep);
            }
        }
        assert(w.skip(1) =~= s1.skip(1) + seq![sep] + s2);
        lemma_split_prefix(s1.skip(1), sep, s2);
        let rest = split_char(w.skip(1), sep);
        lemma_split_len(s1.skip(1) + seq![sep] + s2, sep);
        assert(rest[0] == s1.skip(1));
        assert(seq![w[0]] + rest[0] =~= s1);
        assert(rest.skip(1) =~= split_char(s2, sep));
        assert(split_char(w, sep) =~~= seq![s1] + split_char(s2, sep));
    }
}

/// The views of a vector of strings.
pub open spec fn views_of(v: Seq<String>) -> Seq<Seq<char>> {
    v.map_values(|p: String| p@)
}

/// Splits `s` at every occurrence of `sep`.
pub fn split_on(s: &str, sep: char) -> (parts: Vec<String>)
    ensures
        views_of(parts@) == split_char(s@, sep),
{
    let n = s.unicode_len();
    let mut parts: Vec<String> = Vec::new();
    proof {
        assert(views_of(parts@) + split_char(s@, sep) =~= split_char(s@, sep));
        assert(s@.skip(0) =~= s@);
    }
    let mut start: usize = 0;
    let mut i: usize = 0;
    while i < n
        invariant
            n == s@.len(),
            start <= i <= n,
            forall|k: int| start <= k < i ==> s@[k] != sep,
            split_char(s@, sep) == views_of(parts@) + split_char(s@.skip(start as int), sep),
        decreases n - i,
    {
        if s.get_char(i) == sep {
            let piece = s.substring_char(start, i).to_owned();
            proof {
                let seg = s@.subrange(start as int, i as int);
                assert(!seg.contains(sep)) by {
                    if seg.contains(sep) {
                        let k = choose|k: int| 0 <= k < seg.len() && seg[k] == sep;
                        assert(s@[start + k] == sep);
                    }
                }
                assert(s@.skip(start as int) =~= seg + seq![sep] + s@.skip(i + 1));
                lemma_split_prefix(seg, sep, s@.skip(i + 1));
                assert(views_of(parts@.push(piece)) =~= views_of(parts@) + seq![seg]);
                assert(views_of(parts@) + (seq![seg] + split_char(s@.skip(i + 1), sep)) =~= views_of(
                    parts@.push(piece),
                ) + split_char(s@.skip(i + 1), sep));
            }
            parts.push(piece);
            i += 1;
            start = i;
        } else {
            i += 1;
        }
    }
    let piece = s.substring_char(start, n).to_owned();
    proof {
        let seg = s@.skip(start as int);
        assert(seg =~= s@.subrange(start as int, n as int));
        assert(!seg.contains(sep)) by {
            if seg.contains(sep) {
                let k = choose|k: int| 0 <= k < seg.len() && seg[k] == sep;
                assert(s@[start + k] == sep);
            }
        }
        lemma_split_whole(seg, sep);
        assert(views_of(parts@.push(piece)) =~= views_of(parts@) + seq![seg]);
        assert(views_of(parts@) + seq![seg] =~= split_char(s@, sep));
    }
    parts.push(piece);
    parts
}

/// Number of whitespace characters at the front.
pub open spec fn leading_spaces(s: Seq<char>) -> int
    decreases s.len(),
{
    if s.len() == 0 || !is_space_char(s[0]) {
        0
    } else {
        1 + leading_spaces(s.skip(1))
    }
}

/// Number of whitespace characters at the back.
pub open spec fn trailing_spaces(s: Seq<char>) -> int
    decreases s.len(),
{
    if s.len() == 0 || !is_space_char(s[s.len() - 1]) {
        0
    } else {
        1 + trailing_spaces(s.take(s.len() - 1))
    }
}

/// The sequence without its leading and trailing whitespace.
pub open spec fn trim_spec(s: Seq<char>) -> Seq<char> {
    let core = s.skip(leading_spaces(s));
    core.take(core.len() - trailing_spaces(core))
}

proof fn lemma_leading_spaces_bound(s: Seq<char>)
    ensures
        0 <= leading_spaces(s) <= s.len(),
        forall|k: int| 0 <= k < leading_spaces(s) ==> is_space_char(s[k]),
        leading_spaces(s) < s.len() ==> !is_space_char(s[leading_spaces(s)]),
    decreases s.len(),
{
    if s.len() != 0 && is_space_char(s[0]) {
        lemma_leading_spaces_bound(s.skip(1));
        assert forall|k: int| 0 <= k < leading_spaces(s) implies is_space_char(s[k]) by {
            if k > 0 {
                assert(s.skip(1)[k - 1] == s[k]);
            }
        }
        if leading_spaces(s) < s.len() {
            assert(s.skip(1)[leading_spaces(s) - 1] == s[leading_spaces(s)]);
        }
    }
}

proof fn lemma_trailing_spaces_bound(s: Seq<char>)
    ensures
        0 <= trailing_spaces(s) <= s.len(),
        forall|k: int| s.len() - trailing_spaces(s) <= k < s.len() ==> is_space_char(s[k]),
        trailing_spaces(s) < s.len() ==> !is_space_char(s[s.len() - trailing_spaces(s) - 1]),
    decreases s.len(),
{
    if s.len() != 0 && is_space_char(s[s.len() - 1]) {
        let t = s.take(s.len() - 1);
        lemma_trailing_spaces_bound(t);
        assert forall|k: int| s.len() - trailing_spaces(s) <= k < s.len() implies is_space_char(
            s[k],
        ) by {
            if k < s.len() - 1 {
                assert(t[k] == s[k]);
            }
        }
        if trailing_spaces(s) < s.len() {
            assert(t[t.len() - trailing_spaces(t) - 1] == s[s.len() - trailing_spaces(s) - 1]);
        }
    }
}

proof fn lemma_leading_spaces_skip(s: Seq<char>, i: int)
    requires
        0 <= i <= s.len(),
        forall|k: int| 0 <= k < i ==> is_space_char(s[k]),
    ensures
        leading_spaces(s) == i + leading_spaces(s.skip(i)),
    decreases i,
{
    if i > 0 {
        assert(is_space_char(s[0]));
        assert forall|k: int| 0 <= k < i - 1 implies is_space_char(s.skip(1)[k]) by {
            assert(s.skip(1)[k] == s[k + 1]);
            assert(is_space_char(s[k + 1]));
        }
        lemma_leading_spaces_skip(s.skip(1), i - 1);
        assert(s.skip(1).skip(i - 1) =~= s.skip(i));
    } else {
        assert(s.skip(0) =~= s);
    }
}

proof fn lemma_trailing_spaces_take(s: Seq<char>, j: int)
    requires
        0 <= j <= s.len(),
        forall|k: int| j <= k < s.len() ==> is_space_char(s[k]),
    ensures
        trailing_spaces(s) == (s.len() - j) + trailing_spaces(s.take(j)),
    decreases s.len() - j,
{
    if j < s.len() {
        assert(is_space_char(s[s.len() - 1]));
        let t = s.take(s.len() - 1);
        assert forall|k: int| j <= k < t.len() implies is_space_char(t[k]) by {
            assert(t[k] == s[k]);
            assert(is_space_char(s[k]));
        }
        lemma_trailing_spaces_take(t, j);
        assert(t.take(j) =~= s.take(j));
    } else {
        assert(s.take(s.len() as int) =~= s);
    }
}

/// Removes leading and trailing whitespace.
pub fn trim(s: &str) -> (r: String)
    ensures
        r@ == trim_spec(s@),
{
    let n = s.unicode_len();
    let mut i: usize = 0;
    while i < n && is_space(s.get_char(i))
        invariant
            n == s@.len(),
            i <= n,
            forall|k: int| 0 <= k < i ==> is_space_char(s@[k]),
        decreases n - i,
    {
        i += 1;
    }
    let mut j: usize = n;
    while j > i && is_space(s.get_char(j - 1))
        invariant
            n == s@.len(),
            i <= j <= n,
            forall|k: int| 0 <= k < i ==> is_space_char(s@[k]),
            forall|k: int| j <= k < n ==> is_space_char(s@[k]),
            i < n ==> !is_space_char(s@[i as int]),
        decreases j,
    {
        j -= 1;
    }
    let r = s.substring_char(i, j).to_owned();
    proof {
        lemma_leading_spaces_skip(s@, i as int);
        let core = s@.skip(i as int);
        if i < n {
            assert(!is_space_char(s@[i as int]));
            assert(core[0] == s@[i as int]);
            assert(leading_spaces(s@) == i);
        } else {
            assert(core.len() == 0);
            assert(leading_spaces(s@) == i);
        }
        assert(forall|k: int| j - i <= k < core.len() ==> is_space_char(core[k]));
        lemma_trailing_spaces_take(core, j - i);
        if j > i {
            assert(core.take(j - i)[j - i - 1] == s@[j - 1]);
            assert(trailing_spaces(core.take(j - i)) == 0);
        } else {
            assert(core.take(j - i).len() == 0);
            assert(trailing_spaces(core.take(j - i)) == 0);
        }
        assert(trailing_spaces(core) == core.len() - (j - i));
        assert(core.take(core.len() - trailing_spaces(core)) =~= s@.subrange(i as int, j as int));
    }
    r
}

/// Replacement of every leftmost, non-overlapping occurrence of `pat` by
/// `rep`, scanning left to right.
pub open spec fn replace_spec(s: Seq<char>, pat: Seq<char>, rep: Seq<char>) -> Seq<char>
    decreases s.len(),
{
    if pat.len() == 0 || s.len() < pat.len() {
        s
    } else if s.take(pat.len() as int) == pat {
        rep + replace_spec(s.skip(pat.len() as int), pat, rep)
    } else {
        seq![s[0]] + replace_spec(s.skip(1), pat, rep)
    }
}

/// Whether `pat` occurs anywhere in `s`.
pub open spec fn occurs_in(s: Seq<char>, pat: Seq<char>) -> bool
    decreases s.len(),
{
    if pat.len() == 0 {
        true
    } else if s.len() < pat.len() {
        false
    } else {
        s.take(pat.len() as int) == pat || occurs_in(s.skip(1), pat)
    }
}

/// A sequence in which the pattern does not occur is left unchanged by the
/// replacement.
pub proof fn lemma_replace_absent(s: Seq<char>, pat: Seq<char>, rep: Seq<char>)
    requires
        !occurs_in(s, pat),
    ensures
        replace_spec(s, pat, rep) == s,
    decreases s.len(),
{
    if pat.len() == 0 || s.len() < pat.len() {
    } else {
        lemma_replace_absent(s.skip(1), pat, rep);
        assert(seq![s[0]] + s.skip(1) =~= s);
    }
}

fn matches_at(s: &str, pat: &str, i: usize, n: usize, m: usize) -> (r: bool)
    requires
        n == s@.len(),
        m == pat@.len(),
        i + m <= n,
    ensures
        r == (s@.subrange(i as int, i + m) == pat@),
{
    let mut k: usize = 0;
    while k < m
        invariant
            n == s@.len(),
            m == pat@.len(),
            i + m <= n,
            k <= m,
            forall|t: int| 0 <= t < k ==> s@[i + t] == pat@[t],
        decreases m - k,
    {
        if s.get_char(i + k) != pat.get_char(k) {
            proof {
                assert(s@.subrange(i as int, i + m)[k as int] != pat@[k as int]);
            }
            return false;
        }
        k += 1;
    }
    proof {
        assert(s@.subrange(i as int, i + m) =~= pat@);
    }
    true
}

/// Replaces every leftmost, non-overlapping occurrence of `pat` in `s` by
/// `rep`.
pub fn replace_all(s: &str, pat: &str, rep: &str) -> (res: String)
    requires
        pat@.len() >= 1,
    ensures
        res@ == replace_spec(s@, pat@, rep@),
{
    let n = s.unicode_len();
    let m = pat.unicode_len();
    let mut out = String::new();
    proof {
        assert(s@.skip(0) =~= s@);
        assert(out@ + replace_spec(s@, pat@, rep@) =~= replace_spec(s@, pat@, rep@));
    }
    let mut i: usize = 0;
    while i < n
        invariant
            n == s@.len(),
            m == pat@.len(),
            1 <= m,
            i <= n,
            replace_spec(s@, pat@, rep@) == out@ + replace_spec(s@.skip(i as int), pat@, rep@),
        decreases n - i,
    {
        let ghost tail = s@.skip(i as int);
        if m <= n && i <= n - m && matches_at(s, pat, i, n, m) {
            proof {
                assert(tail.take(m as int) =~= s@.subrange(i as int, i + m));
                assert(tail.skip(m as int) =~= s@.skip(i + m));
                assert(out@ + (rep@ + replace_spec(s@.skip(i + m), pat@, rep@)) =~= (out@ + rep@)
                    + replace_spec(s@.skip(i + m), pat@, rep@));
            }
            out.append(rep);
            i += m;
        } else {
            proof {
                if i + m <= n {
                    assert(tail.take(m as int) =~= s@.subrange(i as int, i + m));
                    assert(tail.take(m as int) != pat@);
                } else {
                    assert(tail.len() < m);
                }
                if tail.len() >= m {
                    assert(tail[0] == s@[i as int]);
                    assert(tail.skip(1) =~= s@.skip(i + 1));
                    assert(out@ + (seq![s@[i as int]] + replace_spec(s@.skip(i + 1), pat@, rep@))
                        =~= (out@ + seq![s@[i as int]]) + replace_spec(s@.skip(i + 1), pat@, rep@));
                }
            }
            let piece = s.substring_char(i, i + 1);
            proof {
                assert(piece@ =~= seq![s@[i as int]]);
                if s@.skip(i as int).len() < m {
                    assert(replace_spec(s@.skip(i as int), pat@, rep@) == s@.skip(i as int));
                    assert(s@.skip(i as int) =~= seq![s@[i as int]] + s@.skip(i + 1));
                    assert(replace_spec(s@.skip(i + 1), pat@, rep@) == s@.skip(i + 1));
                    assert(out@ + (seq![s@[i as int]] + replace_spec(s@.skip(i + 1), pat@, rep@))
                        =~= (out@ + seq![s@[i as int]]) + replace_spec(s@.skip(i + 1), pat@, rep@));
                }
            }
            out.append(piece);
            i += 1;
        }
    }
    proof {
        assert(s@.skip(n as int).len() == 0);
        assert(replace_spec(s@.skip(n as int), pat@, rep@) == s@.skip(n as int));
        assert(out@ + s@.skip(n as int) =~= out@);
    }
    out
}

/// Paragraphs joined by one newline between neighbours.
pub open spec fn join_nl(ps: Seq<Seq<char>>) -> Seq<char>
    decreases ps.len(),
{
    if ps.len() == 0 {
        Seq::<char>::empty()
    } else if ps.len() == 1 {
        ps[0]
    } else {
        ps[0] + seq!['\n'] + join_nl(ps.skip(1))
    }
}

proof fn lemma_join_snoc(ps: Seq<Seq<char>>, q: Seq<char>)
    requires
        ps.len() >= 1,
    ensures
        join_nl(ps.push(q)) == join_nl(ps) + seq!['\n'] + q,
    decreases ps.len(),
{
    if ps.len() == 1 {
        assert(ps.push(q).len() == 2);
        assert(ps.push(q)[0] == ps[0]);
        assert(ps.push(q).skip(1) =~= seq![q]);
        assert(join_nl(seq![q]) == q);
        assert(join_nl(ps.push(q)) =~= ps[0] + seq!['\n'] + q);
    } else {
        assert(ps.push(q).len() == ps.len() + 1);
        assert(ps.push(q)[0] == ps[0]);
        assert(ps.push(q).skip(1) =~= ps.skip(1).push(q));
        lemma_join_snoc(ps.skip(1), q);
        assert(ps[0] + seq!['\n'] + (join_nl(ps.skip(1)) + seq!['\n'] + q) =~= (ps[0] + seq!['\n']
            + join_nl(ps.skip(1))) + seq!['\n'] + q);
    }
}

/// Joins the paragraphs with a single newline between neighbours.
pub fn join_paragraphs(ps: &Vec<String>) -> (r: String)
    ensures
        r@ == join_nl(views_of(ps@)),
{
    let mut out = String::new();
    let mut k: usize = 0;
    while k < ps.len()
        invariant
            k <= ps@.len(),
            out@ == join_nl(views_of(ps@).take(k as int)),
        decreases ps@.len() - k,
    {
        proof {
            reveal_strlit("\n");
            let vs = views_of(ps@);
            assert("\n"@ =~= seq!['\n']);
            if k > 0 {
                assert(vs.take(k as int).push(vs[k as int]) =~= vs.take(k + 1));
                lemma_join_snoc(vs.take(k as int), vs[k as int]);
            } else {
                assert(vs.take(1) =~= seq![vs[0]]);
                assert(join_nl(seq![vs[0]]) == vs[0]);
                assert(out@ + vs[0] =~= vs[0]);
            }
        }
        if k > 0 {
            out.append("\n");
        }
        out.append(ps[k].as_str());
        k += 1;
    }
    proof {
        assert(views_of(ps@).take(ps@.len() as int) =~= views_of(ps@));
    }
    out
}

/// Joining paragraphs and splitting the result at newlines round-trips,
/// provided no paragraph itself contains a newline.
pub proof fn lemma_join_split_roundtrip(ps: Seq<Seq<char>>)
    requires
        ps.len() >= 1,
        forall|k: int| 0 <= k < ps.len() ==> !(#[trigger] ps[k]).contains('\n'),
    ensures
        split_char(join_nl(ps), '\n') == ps,
    decreases ps.len(),
{
    if ps.len() == 1 {
        lemma_split_whole(ps[0], '\n');
        assert(seq![ps[0]] =~= ps);
    } else {
        assert(forall|k: int|
            0 <= k < ps.skip(1).len() ==> !(#[trigger] ps.skip(1)[k]).contains('\n'));
        lemma_join_split_roundtrip(ps.skip(1));
        assert(join_nl(ps) =~= ps[0] + seq!['\n'] + join_nl(ps.skip(1)));
        lemma_split_prefix(ps[0], '\n', join_nl(ps.skip(1)));
        assert(seq![ps[0]] + ps.skip(1) =~= ps);
    }
}

} // verus!
