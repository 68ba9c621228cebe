//! Verified helpers for scanning and assembling strings, stated over the
//! `Seq<char>` view that Verus gives to `str` and `String`.

use vstd::prelude::*;
use vstd::string::StrSliceExecFns;
use vstd::string::StringExecFns;

verus! {

/// `p` is an initial segment of `s`.
pub open spec fn is_prefix_of(p: Seq<char>, s: Seq<char>) -> bool {
    p.len() <= s.len() && s.subrange(0, p.len() as int) == p
}

/// `p` is a final segment of `s`.
pub open spec fn is_suffix_of(p: Seq<char>, s: Seq<char>) -> bool {
    p.len() <= s.len() && s.subrange(s.len() - p.len(), s.len() as int) == p
}

/// `pat` occurs in `s` starting at position `i`.
pub open spec fn matches_at(s: Seq<char>, pat: Seq<char>, i: int) -> bool {
    0 <= i && i + pat.len() <= s.len() && s.subrange(i, i + pat.len()) == pat
}

/// `pat` occurs somewhere in `s`.
pub open spec fn contains_seq(s: Seq<char>, pat: Seq<char>) -> bool {
    exists|i: int| matches_at(s, pat, i)
}

/// `pat` occurs at `i` and nowhere earlier.
pub open spec fn is_first_match(s: Seq<char>, pat: Seq<char>, i: int) -> bool {
    matches_at(s, pat, i) && forall|j: int| 0 <= j < i ==> !matches_at(s, pat, j)
}

/// The position of the first occurrence of `pat` in `s`; meaningful only when
/// `contains_seq(s, pat)`.
pub open spec fn first_match_of(s: Seq<char>, pat: Seq<char>) -> int {
    choose|i: int| is_first_match(s, pat, i)
}

pub proof fn lemma_first_match_unique(s: Seq<char>, pat: Seq<char>, i: int)
    requires
        is_first_match(s, pat, i),
    ensures
        first_match_of(s, pat) == i,
{
    let j = choose|k: int| is_first_match(s, pat, k);
    assert(is_first_match(s, pat, j));
    if j < i {
        assert(matches_at(s, pat, j));
        assert(false);
    }
    if i < j {
        assert(matches_at(s, pat, i));
        assert(false);
    }
}

/// The character `c` occurs in `s`.
pub open spec fn contains_char(s: Seq<char>, c: char) -> bool {
    exists|i: int| 0 <= i < s.len() && s[i] == c
}

/// `c` stands at `i` and nowhere earlier.
pub open spec fn is_first_char(s: Seq<char>, c: char, i: int) -> bool {
    0 <= i < s.len() && s[i] == c && forall|j: int| 0 <= j < i ==> s[j] != c
}

/// The position of the first `c` in `s`; meaningful only when `contains_char(s, c)`.
pub open spec fn first_char_of(s: Seq<char>, c: char) -> int {
    choose|i: int| is_first_char(s, c, i)
}

pub proof fn lemma_first_char_unique(s: Seq<char>, c: char, i: int)
    requires
        is_first_char(s, c, i),
    ensures
        first_char_of(s, c) == i,
{
    let j = choose|k: int| is_first_char(s, c, k);
    assert(is_first_char(s, c, j));
    if j < i {
        assert(s[j] == c);
        assert(false);
    }
    if i < j {
        assert(s[i] == c);
        assert(false);
    }
}

/// `s` without its leading whitespace.
pub open spec fn trim_start_spec(s: Seq<char>) -> Seq<char>
    decreases s.len(),
{
    if s.len() > 0 && is_wspace(s[0]) {
        trim_start_spec(s.subrange(1, s.len() as int))
    } else {
        s
    }
}

/// `s` without leading or trailing whitespace.
pub open spec fn trim_spec(s: Seq<char>) -> Seq<char> {
    trim_start_spec(trim_end_spec(s))
}

/// Returns `s` with all leading whitespace removed.
pub fn trim_start<'a>(s: &'a str) -> (r: &'a str)
    ensures
        r@ == trim_start_spec(s@),
{
    let s_len = s.unicode_len();
    proof {
        assert(s@.subrange(0, s_len as int) =~= s@);
    }
    let mut b: usize = 0;
    while b < s_len
        invariant_except_break
            b <= s_len,
            s_len == s@.len(),
            trim_start_spec(s@) == trim_start_spec(s@.subrange(b as int, s_len as int)),
        ensures
            b <= s_len,
            s_len == s@.len(),
            trim_start_spec(s@) == s@.subrange(b as int, s_len as int),
        decreases s_len - b,
    {
        let ghost sub = s@.subrange(b as int, s_len as int);
        if !is_wspace_exec(s.get_char(b)) {
            proof {
                assert(sub[0] == s@[b as int]);
                assert(trim_start_spec(sub) == sub);
            }
            break;
        }
        proof {
            assert(sub[0] == s@[b as int]);
            assert(sub.subrange(1, sub.len() as int) =~= s@.subrange(b + 1, s_len as int));
        }
        b += 1;
    }
    let r = s.substring_char(b, s_len);
    r
}

/// Returns `s` with leading and trailing whitespace removed.
pub fn trim_both<'a>(s: &'a str) -> (r: &'a str)
    ensures
        r@ == trim_spec(s@),
{
    trim_start(trim_end(s))
}

/// Lexicographic order on texts, by character code.
pub open spec fn seq_le(a: Seq<char>, b: Seq<char>) -> bool
    decreases a.len(),
{
    if a.len() == 0 {
        true
    } else if b.len() == 0 {
        false
    } else if a[0] == b[0] {
        seq_le(a.drop_first(), b.drop_first())
    } else {
        a[0] < b[0]
    }
}

/// Every text compares no-greater than itself.
pub proof fn lemma_seq_le_refl(a: Seq<char>)
    ensures
        seq_le(a, a),
    decreases a.len(),
{
    if a.len() > 0 {
        lemma_seq_le_refl(a.drop_first());
    }
}

/// Any two texts compare one way or the other.
pub proof fn lemma_seq_le_total(a: Seq<char>, b: Seq<char>)
    ensures
        seq_le(a, b) || seq_le(b, a),
    decreases a.len(),
{
    if a.len() > 0 && b.len() > 0 && a[0] == b[0] {
        lemma_seq_le_total(a.drop_first(), b.drop_first());
    }
}

/// The lexicographic order is transitive.
pub proof fn lemma_seq_le_trans(a: Seq<char>, b: Seq<char>, c: Seq<char>)
    requires
        seq_le(a, b),
        seq_le(b, c),
    ensures
        seq_le(a, c),
    decreases a.len(),
{
    if a.len() > 0 && b.len() > 0 && c.len() > 0 && a[0] == b[0] && b[0] == c[0] {
        lemma_seq_le_trans(a.drop_first(), b.drop_first(), c.drop_first());
    }
}

/// Compares two strings in lexicographic order by character code.
pub fn str_le(a: &str, b: &str) -> (r: bool)
    ensures
        r == seq_le(a@, b@),
{
    let a_len = a.unicode_len();
    let b_len = b.unicode_len();
    proof {
        assert(a@.skip(0) =~= a@);
        assert(b@.skip(0) =~= b@);
    }
    let mut i: usize = 0;
    while i < a_len && i < b_len
        invariant_except_break
            i <= a_len,
            i <= b_len,
            a_len == a@.len(),
            b_len == b@.len(),
            seq_le(a@, b@) == seq_le(a@.skip(i as int), b@.skip(i as int)),
        ensures
            a_len == a@.len(),
            b_len == b@.len(),
            i <= a_len,
            i <= b_len,
            seq_le(a@, b@) == (if i < a_len && i < b_len {
                a@[i as int] < b@[i as int]
            } else {
                i >= a_len
            }),
        decreases a_len - i,
    {
        let ghost sa = a@.skip(i as int);
        let ghost sb = b@.skip(i as int);
        proof {
            assert(sa[0] == a@[i as int]);
            assert(sb[0] == b@[i as int]);
        }
        let ca = a.get_char(i);
        let cb = b.get_char(i);
        if ca != cb {
            break;
        }
        proof {
            assert(sa.drop_first() =~= a@.skip(i + 1));
            assert(sb.drop_first() =~= b@.skip(i + 1));
        }
        i += 1;
    }
    if i < a_len && i < b_len {
        let ca = a.get_char(i);
        let cb = b.get_char(i);
        ca < cb
    } else {
        i >= a_len
    }
}

/// The position of the first `c` in `s`, or the length of `s` where `c`
/// does not occur.
pub open spec fn idx_of(s: Seq<char>, c: char) -> nat
    decreases s.len(),
{
    if s.len() == 0 {
        0
    } else if s[0] == c {
        0
    } else {
        1 + idx_of(s.drop_first(), c)
    }
}

pub proof fn lemma_idx_of_first(s: Seq<char>, c: char, i: int)
    requires
        is_first_char(s, c, i),
    ensures
        idx_of(s, c) == i,
    decreases i,
{
    if s.len() > 0 && s[0] != c {
        assert(forall|j: int|
            0 <= j < s.drop_first().len() ==> #[trigger] s.drop_first()[j] == s[j + 1]);
        lemma_idx_of_first(s.drop_first(), c, i - 1);
    }
}

pub proof fn lemma_idx_of_absent(s: Seq<char>, c: char)
    requires
        forall|j: int| 0 <= j < s.len() ==> s[j] != c,
    ensures
        idx_of(s, c) == s.len(),
    decreases s.len(),
{
    if s.len() > 0 {
        assert(forall|j: int|
            0 <= j < s.drop_first().len() ==> #[trigger] s.drop_first()[j] == s[j + 1]);
        lemma_idx_of_absent(s.drop_first(), c);
    }
}

/// The segments of `s` between occurrences of `c`: always at least one
/// segment, and one more for every occurrence of `c`.
pub open spec fn split_char(s: Seq<char>, c: char) -> Seq<Seq<char>>
    decreases s.len(),
{
    let i = idx_of(s, c);
    if i >= s.len() {
        seq![s]
    } else {
        seq![s.subrange(0, i as int)] + split_char(s.subrange(i as int + 1, s.len() as int), c)
    }
}

/// The lines of `s`: segments between newlines, with a final empty segment
/// after a trailing newline dropped.
pub open spec fn split_lines(s: Seq<char>) -> Seq<Seq<char>>
    decreases s.len(),
{
    if s.len() == 0 {
        Seq::empty()
    } else {
        let i = idx_of(s, '\n');
        if i >= s.len() {
            seq![s]
        } else {
            seq![s.subrange(0, i as int)] + split_lines(s.subrange(i as int + 1, s.len() as int))
        }
    }
}

/// The segments joined with `c` between them.
pub open spec fn join_with(ls: Seq<Seq<char>>, c: char) -> Seq<char>
    decreases ls.len(),
{
    if ls.len() == 0 {
        Seq::empty()
    } else {
        ls.first() + join_with_rest(ls.drop_first(), c)
    }
}

/// The tail of a join: each further segment preceded by `c`.
pub open spec fn join_with_rest(ls: Seq<Seq<char>>, c: char) -> Seq<char>
    decreases ls.len(),
{
    if ls.len() == 0 {
        Seq::empty()
    } else {
        seq![c] + ls.first() + join_with_rest(ls.drop_first(), c)
    }
}

/// The views of a list of strings.
pub open spec fn views_of(v: Seq<String>) -> Seq<Seq<char>> {
    v.map_values(|s: String| s@)
}

/// Splits `s` at every occurrence of `c`.
pub fn split_char_exec(s: &str, c: char) -> (r: Vec<String>)
    ensures
        views_of(r@) == split_char(s@, c),
{
    let s_len = s.unicode_len();
    let mut out: Vec<String> = Vec::new();
    let mut p: usize = 0;
    proof {
        assert(s@.subrange(0, s_len as int) =~= s@);
    }
    loop
        invariant_except_break
            p <= s_len,
            s_len == s@.len(),
            split_char(s@, c) == views_of(out@) + split_char(
                s@.subrange(p as int, s_len as int),
                c,
            ),
        ensures
            views_of(out@) == split_char(s@, c),
        decreases s_len - p,
    {
        let rest = s.substring_char(p, s_len);
        let ghost rv = rest@;
        match find_char(rest, c) {
            Some(i) => {
                proof {
                    lemma_idx_of_first(rv, c, i as int);
                }
                let seg = rest.substring_char(0, i);
                let ghost out0 = out@;
                out.push(String::from_str(seg));
                proof {
                    assert(views_of(out@) =~= views_of(out0).push(seg@));
                    assert(rv.subrange(idx_of(rv, c) as int + 1, rv.len() as int) =~= s@.subrange(
                        p + i + 1,
                        s_len as int,
                    ));
                    assert(views_of(out@) + split_char(
                        s@.subrange(p + i + 1, s_len as int),
                        c,
                    ) =~= views_of(out0) + split_char(s@.subrange(p as int, s_len as int), c));
                }
                p = p + i + 1;
            },
            None => {
                proof {
                    lemma_idx_of_absent(rv, c);
                }
                let ghost out0 = out@;
                out.push(String::from_str(rest));
                proof {
                    assert(views_of(out@) =~= views_of(out0).push(rv));
                    assert(split_char(rv, c) =~= seq![rv]);
                    assert(views_of(out@) =~= views_of(out0) + seq![rv]);
                }
                break;
            },
        }
    }
    out
}

/// Splits `s` into lines.
pub fn split_lines_exec(s: &str) -> (r: Vec<String>)
    ensures
        views_of(r@) == split_lines(s@),
{
    let s_len = s.unicode_len();
    let mut out: Vec<String> = Vec::new();
    let mut p: usize = 0;
    proof {
        assert(s@.subrange(0, s_len as int) =~= s@);
    }
    loop
        invariant_except_break
            p <= s_len,
            s_len == s@.len(),
            split_lines(s@) == views_of(out@) + split_lines(s@.subrange(p as int, s_len as int)),
        ensures
            views_of(out@) == split_lines(s@),
        decreases s_len - p,
    {
        if p == s_len {
            proof {
                assert(s@.subrange(p as int, s_len as int).len() == 0);
                assert(views_of(out@) =~= views_of(out@) + split_lines(
                    s@.subrange(p as int, s_len as int),
                ));
            }
            break;
        }
        let rest = s.substring_char(p, s_len);
        let ghost rv = rest@;
        match find_char(rest, '\n') {
            Some(i) => {
                proof {
                    lemma_idx_of_first(rv, '\n', i as int);
                }
                let seg = rest.substring_char(0, i);
                let ghost out0 = out@;
                out.push(String::from_str(seg));
                proof {
                    assert(views_of(out@) =~= views_of(out0).push(seg@));
                    assert(rv.subrange(idx_of(rv, '\n') as int + 1, rv.len() as int) =~= s@.subrange(
                        p + i + 1,
                        s_len as int,
                    ));
                    assert(views_of(out@) + split_lines(
                        s@.subrange(p + i + 1, s_len as int),
                    ) =~= views_of(out0) + split_lines(s@.subrange(p as int, s_len as int)));
                }
                p = p + i + 1;
            },
            None => {
                proof {
                    lemma_idx_of_absent(rv, '\n');
                }
                let ghost out0 = out@;
                out.push(String::from_str(rest));
                proof {
                    assert(views_of(out@) =~= views_of(out0).push(rv));
                    assert(split_lines(rv) =~= seq![rv]);
                    assert(views_of(out@) =~= views_of(out0) + seq![rv]);
                }
                break;
            },
        }
    }
    out
}

/// Joins the strings with `c` between them.
pub fn join_with_exec(v: &Vec<String>, c: char) -> (r: String)
    ensures
        r@ == join_with(views_of(v@), c),
{
    let n = v.len();
    let mut out = String::new();
    if n == 0 {
        return out;
    }
    out.append(v[0].as_str());
    proof {
        assert(views_of(v@).first() == v@[0]@);
        assert(views_of(v@).drop_first() =~= views_of(v@.subrange(1, n as int)));
    }
    let mut i: usize = 1;
    while i < n
        invariant
            1 <= i <= n,
            n == v@.len(),
            join_with(views_of(v@), c) == out@ + join_with_rest(
                views_of(v@.subrange(i as int, n as int)),
                c,
            ),
        decreases n - i,
    {
        let ghost tail_i = views_of(v@.subrange(i as int, n as int));
        proof {
            assert(tail_i.first() == v@[i as int]@);
            assert(tail_i.drop_first() =~= views_of(v@.subrange(i + 1, n as int)));
        }
        push_char(&mut out, c);
        out.append(v[i].as_str());
        i += 1;
    }
    proof {
        assert(views_of(v@.subrange(n as int, n as int)) =~= Seq::<Seq<char>>::empty());
    }
    out
}

/// Number of occurrences of the character `c` in `s`.
pub closed spec fn count_char(s: Seq<char>, c: char) -> nat
    decreases s.len(),
{
    if s.len() == 0 {
        0
    } else {
        count_char(s.drop_last(), c) + if s.last() == c { 1nat } else { 0nat }
    }
}

pub proof fn lemma_count_char_zero_absent(s: Seq<char>, c: char)
    requires
        forall|j: int| 0 <= j < s.len() ==> s[j] != c,
    ensures
        count_char(s, c) == 0,
    decreases s.len(),
{
    if s.len() > 0 {
        assert(forall|j: int| 0 <= j < s.drop_last().len() ==> s.drop_last()[j] == s[j]);
        lemma_count_char_zero_absent(s.drop_last(), c);
    }
}

/// Relies on `String::push` from std: appends exactly the given character.
#[verifier::external_body]
pub fn push_char(s: &mut String, c: char)
    ensures
        final(s)@ == old(s)@.push(c),
{
    s.push(c);
}

/// Does `pat` occur in `s` at position `i`?
fn eq_at(s: &str, pat: &str, i: usize) -> (r: bool)
    requires
        i + pat@.len() <= s@.len(),
    ensures
        r == matches_at(s@, pat@, i as int),
{
    let s_len = s.unicode_len();
    let p_len = pat.unicode_len();
    let mut k: usize = 0;
    while k < p_len
        invariant
            s_len == s@.len(),
            i + p_len <= s_len,
            p_len == pat@.len(),
            k <= p_len,
            forall|m: int| 0 <= m < k ==> s@[i + m] == pat@[m],
        decreases p_len - k,
    {
        if s.get_char(i + k) != pat.get_char(k) {
            assert(s@.subrange(i as int, i + p_len as int)[k as int] == s@[i + k]);
            return false;
        }
        k += 1;
    }
    assert(s@.subrange(i as int, i + p_len as int) =~= pat@);
    true
}

/// First position at which `pat` occurs in `s`, if any.
pub fn find_sub(s: &str, pat: &str) -> (r: Option<usize>)
    ensures
        match r {
            Some(i) => matches_at(s@, pat@, i as int) && forall|j: int|
                0 <= j < i ==> !matches_at(s@, pat@, j),
            None => !contains_seq(s@, pat@),
        },
{
    let s_len = s.unicode_len();
    let p_len = pat.unicode_len();
    if p_len > s_len {
        assert(forall|i: int| !matches_at(s@, pat@, i));
        return None;
    }
    if p_len == 0 {
        assert(s@.subrange(0, 0) =~= pat@);
        return Some(0);
    }
    let mut i: usize = 0;
    while i <= s_len - p_len
        invariant
            1 <= p_len <= s_len,
            s_len == s@.len(),
            p_len == pat@.len(),
            i <= s_len - p_len + 1,
            forall|j: int| 0 <= j < i ==> !matches_at(s@, pat@, j),
        decreases s_len - p_len - i + 1,
    {
        if eq_at(s, pat, i) {
            return Some(i);
        }
        i += 1;
    }
    assert(forall|j: int| 0 <= j ==> !matches_at(s@, pat@, j));
    None
}

/// Does `pat` occur anywhere in `s`?
pub fn contains_sub(s: &str, pat: &str) -> (r: bool)
    ensures
        r == contains_seq(s@, pat@),
{
    find_sub(s, pat).is_some()
}

/// Does `s` start with `p`?
pub fn starts_with(s: &str, p: &str) -> (r: bool)
    ensures
        r == is_prefix_of(p@, s@),
{
    let s_len = s.unicode_len();
    let p_len = p.unicode_len();
    if p_len > s_len {
        return false;
    }
    let r = eq_at(s, p, 0);
    assert(s@.subrange(0, p@.len() as int) == s@.subrange(0, 0 + p@.len() as int));
    r
}

/// Does `s` end with `p`?
pub fn ends_with(s: &str, p: &str) -> (r: bool)
    ensures
        r == is_suffix_of(p@, s@),
{
    let s_len = s.unicode_len();
    let p_len = p.unicode_len();
    if p_len > s_len {
        return false;
    }
    let r = eq_at(s, p, s_len - p_len);
    assert(s@.subrange(s@.len() - p@.len(), s@.len() as int) == s@.subrange(
        (s_len - p_len) as int,
        (s_len - p_len) + p@.len() as int,
    ));
    r
}

/// First position of the character `c` in `s`, if any.
pub fn find_char(s: &str, c: char) -> (r: Option<usize>)
    ensures
        match r {
            Some(i) => i < s@.len() && s@[i as int] == c && forall|j: int|
                0 <= j < i ==> s@[j] != c,
            None => forall|j: int| 0 <= j < s@.len() ==> s@[j] != c,
        },
{
    let s_len = s.unicode_len();
    let mut i: usize = 0;
    while i < s_len
        invariant
            s_len == s@.len(),
            i <= s_len,
            forall|j: int| 0 <= j < i ==> s@[j] != c,
        decreases s_len - i,
    {
        if s.get_char(i) == c {
            return Some(i);
        }
        i += 1;
    }
    None
}

/// Are the two strings equal, character for character?
pub fn str_eq(a: &str, b: &str) -> (r: bool)
    ensures
        r == (a@ == b@),
{
    let a_len = a.unicode_len();
    let b_len = b.unicode_len();
    if a_len != b_len {
        return false;
    }
    let mut i: usize = 0;
    while i < a_len
        invariant
            a_len == a@.len(),
            a@.len() == b@.len(),
            i <= a_len,
            forall|j: int| 0 <= j < i ==> a@[j] == b@[j],
        decreases a_len - i,
    {
        if a.get_char(i) != b.get_char(i) {
            return false;
        }
        i += 1;
    }
    assert(a@ =~= b@);
    true
}

/// Whitespace as the reflog and notes text produce it.
pub open spec fn is_wspace(c: char) -> bool {
    c == ' ' || c == '\t' || c == '\n' || c == '\r'
}

pub fn is_wspace_exec(c: char) -> (r: bool)
    ensures
        r == is_wspace(c),
{
    c == ' ' || c == '\t' || c == '\n' || c == '\r'
}

/// `s` without its trailing whitespace.
pub open spec fn trim_end_spec(s: Seq<char>) -> Seq<char>
    decreases s.len(),
{
    if s.len() == 0 {
        s
    } else if is_wspace(s.last()) {
        trim_end_spec(s.drop_last())
    } else {
        s
    }
}

/// Returns `s` with all trailing whitespace removed.
pub fn trim_end<'a>(s: &'a str) -> (r: &'a str)
    ensures
        r@ == trim_end_spec(s@),
{
    let s_len = s.unicode_len();
    proof {
        assert(s@.subrange(0, s_len as int) =~= s@);
    }
    let mut e: usize = s_len;
    while e > 0
        invariant_except_break
            e <= s_len,
            s_len == s@.len(),
            trim_end_spec(s@) == trim_end_spec(s@.subrange(0, e as int)),
        ensures
            e <= s_len,
            s_len == s@.len(),
            trim_end_spec(s@) == s@.subrange(0, e as int),
        decreases e,
    {
        if !is_wspace_exec(s.get_char(e - 1)) {
            proof {
                let sub = s@.subrange(0, e as int);
                assert(sub.last() == s@[e - 1]);
                assert(trim_end_spec(sub) == sub);
            }
            break;
        }
        proof {
            let sub = s@.subrange(0, e as int);
            assert(sub.last() == s@[e - 1]);
            assert(sub.drop_last() =~= s@.subrange(0, e - 1));
        }
        e -= 1;
    }
    let r = s.substring_char(0, e);
    r
}

/// `s` with every trailing copy of the (non-empty) suffix `p` removed.
pub open spec fn strip_suffix_all(s: Seq<char>, p: Seq<char>) -> Seq<char>
    decreases s.len(),
{
    if 0 < p.len() <= s.len() && is_suffix_of(p, s) {
        strip_suffix_all(s.subrange(0, s.len() - p.len()), p)
    } else {
        s
    }
}

/// Returns `s` with every trailing copy of `p` removed.
pub fn strip_suffix_all_exec<'a>(s: &'a str, p: &str) -> (r: &'a str)
    requires
        p@.len() > 0,
    ensures
        r@ == strip_suffix_all(s@, p@),
{
    let s_len = s.unicode_len();
    let p_len = p.unicode_len();
    proof {
        assert(s@.subrange(0, s_len as int) =~= s@);
    }
    let mut e: usize = s_len;
    while e >= p_len
        invariant_except_break
            e <= s_len,
            s_len == s@.len(),
            p_len == p@.len(),
            0 < p_len,
            strip_suffix_all(s@, p@) == strip_suffix_all(s@.subrange(0, e as int), p@),
        ensures
            e <= s_len,
            s_len == s@.len(),
            strip_suffix_all(s@, p@) == s@.subrange(0, e as int),
        decreases e,
    {
        let ghost sub = s@.subrange(0, e as int);
        if eq_at(s, p, e - p_len) {
            proof {
                assert(sub.subrange(e - p_len, e as int) =~= s@.subrange(e - p_len, e as int));
                assert(is_suffix_of(p@, sub));
                assert(sub.subrange(0, e - p_len) =~= s@.subrange(0, e - p_len));
            }
            e -= p_len;
        } else {
            proof {
                assert(sub.subrange(e - p_len, e as int) =~= s@.subrange(e - p_len, e as int));
                assert(!is_suffix_of(p@, sub));
                assert(strip_suffix_all(sub, p@) == sub);
            }
            break;
        }
    }
    proof {
        if e < p_len {
            let sub = s@.subrange(0, e as int);
            assert(strip_suffix_all(sub, p@) == sub);
        }
    }
    let r = s.substring_char(0, e);
    r
}

/// ASCII lowercasing of one character, as the store's matching uses it.
pub open spec fn lower_char(c: char) -> char {
    if 'A' <= c && c <= 'Z' {
        (((c as u8) + 32) as char)
    } else {
        c
    }
}

/// ASCII lowercasing of a whole string.
pub open spec fn lower_seq(s: Seq<char>) -> Seq<char> {
    Seq::new(s.len(), |i: int| lower_char(s[i]))
}

pub fn lower_char_exec(c: char) -> (r: char)
    ensures
        r == lower_char(c),
{
    if 'A' <= c && c <= 'Z' {
        ((c as u8) + 32) as char
    } else {
        c
    }
}

/// A copy of `s` with ASCII uppercase letters lowered.
pub fn to_lower(s: &str) -> (r: String)
    ensures
        r@ == lower_seq(s@),
{
    let s_len = s.unicode_len();
    let mut r = String::new();
    let mut i: usize = 0;
    while i < s_len
        invariant
            s_len == s@.len(),
            i <= s_len,
            r@ == lower_seq(s@).subrange(0, i as int),
        decreases s_len - i,
    {
        push_char(&mut r, lower_char_exec(s.get_char(i)));
        proof {
            assert(lower_seq(s@).subrange(0, i + 1) =~= lower_seq(s@).subrange(0, i as int).push(
                lower_char(s@[i as int]),
            ));
        }
        i += 1;
    }
    proof {
        assert(lower_seq(s@).subrange(0, s@.len() as int) =~= lower_seq(s@));
    }
    r
}

/// Case-insensitive containment, by ASCII lowering both sides.
pub fn contains_ci(s: &str, pat: &str) -> (r: bool)
    ensures
        r == contains_seq(lower_seq(s@), lower_seq(pat@)),
{
    let ls = to_lower(s);
    let lp = to_lower(pat);
    contains_sub(ls.as_str(), lp.as_str())
}

/// First index at or after `i` holding a non-whitespace character, or the end.
pub open spec fn ws_skip(s: Seq<char>, i: int) -> int
    decreases s.len() - i,
{
    if 0 <= i < s.len() && is_wspace(s[i]) {
        ws_skip(s, i + 1)
    } else {
        i
    }
}

/// First index at or after `i` holding whitespace, or the end.
pub open spec fn tok_end(s: Seq<char>, i: int) -> int
    decreases s.len() - i,
{
    if 0 <= i < s.len() && !is_wspace(s[i]) {
        tok_end(s, i + 1)
    } else {
        i
    }
}

fn ws_skip_exec(s: &str, i: usize) -> (r: usize)
    requires
        i <= s@.len(),
    ensures
        r == ws_skip(s@, i as int),
        i <= r <= s@.len(),
{
    let s_len = s.unicode_len();
    let mut j: usize = i;
    while j < s_len
        invariant_except_break
            i <= j <= s_len,
            s_len == s@.len(),
            ws_skip(s@, i as int) == ws_skip(s@, j as int),
        ensures
            i <= j <= s_len,
            ws_skip(s@, i as int) == j,
        decreases s_len - j,
    {
        if !is_wspace_exec(s.get_char(j)) {
            break;
        }
        j += 1;
    }
    j
}

fn tok_end_exec(s: &str, i: usize) -> (r: usize)
    requires
        i <= s@.len(),
    ensures
        r == tok_end(s@, i as int),
        i <= r <= s@.len(),
{
    let s_len = s.unicode_len();
    let mut j: usize = i;
    while j < s_len
        invariant_except_break
            i <= j <= s_len,
            s_len == s@.len(),
            tok_end(s@, i as int) == tok_end(s@, j as int),
        ensures
            i <= j <= s_len,
            tok_end(s@, i as int) == j,
        decreases s_len - j,
    {
        if is_wspace_exec(s.get_char(j)) {
            break;
        }
        j += 1;
    }
    j
}

/// The second whitespace-delimited token of `s`, if there is one.
pub open spec fn second_token_spec(s: Seq<char>) -> Option<Seq<char>> {
    let a0 = ws_skip(s, 0);
    let b0 = tok_end(s, a0);
    let a1 = ws_skip(s, b0);
    let b1 = tok_end(s, a1);
    if a1 < b1 {
        Some(s.subrange(a1, b1))
    } else {
        None
    }
}

/// Returns the second whitespace-delimited token of `s`, if there is one.
pub fn second_token(s: &str) -> (r: Option<String>)
    ensures
        match r {
            Some(t) => second_token_spec(s@) == Some(t@),
            None => second_token_spec(s@) is None,
        },
{
    let a0 = ws_skip_exec(s, 0);
    let b0 = tok_end_exec(s, a0);
    let a1 = ws_skip_exec(s, b0);
    let b1 = tok_end_exec(s, a1);
    if a1 < b1 {
        let t = s.substring_char(a1, b1);
        Some(String::from_str(t))
    } else {
        None
    }
}

/// Number of occurrences of `c` in `s`.
pub fn count_char_exec(s: &str, c: char) -> (r: usize)
    ensures
        r == count_char(s@, c),
{
    let s_len = s.unicode_len();
    let mut i: usize = 0;
    let mut n: usize = 0;
    while i < s_len
        invariant
            s_len == s@.len(),
            i <= s_len,
            n <= i,
            n == count_char(s@.subrange(0, i as int), c),
        decreases s_len - i,
    {
        proof {
            assert(s@.subrange(0, i + 1).drop_last() =~= s@.subrange(0, i as int));
            assert(s@.subrange(0, i + 1).last() == s@[i as int]);
        }
        if s.get_char(i) == c {
            n += 1;
        }
        i += 1;
    }
    proof {
        assert(s@.subrange(0, s@.len() as int) =~= s@);
    }
    n
}

} // verus!
