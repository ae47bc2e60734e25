//! Character-level helpers shared by the rule engine: prefix/suffix tests,
//! substring search, trimming and case-insensitive marker matching, each
//! verified against a sequence-level specification.
use vstd::prelude::*;
use vstd::string::StrSliceExecFns;
use vstd::string::StringExecFns;

verus! {

/// `p` is a prefix of `s`.
pub open spec fn prefix_of(p: Seq<char>, s: Seq<char>) -> bool {
    p.len() <= s.len() && s.take(p.len() as int) == p
}

/// `p` is a suffix of `s`.
pub open spec fn suffix_of(p: Seq<char>, s: Seq<char>) -> bool {
    p.len() <= s.len() && s.skip(s.len() - p.len()) == p
}

/// The four characters every complement form starts with.
pub open spec fn www_dot() -> Seq<char> {
    seq!['w', 'w', 'w', '.']
}

/// A host with a single leading `www.` label stripped.
pub open spec fn reduce_spec(s: Seq<char>) -> Seq<char> {
    if prefix_of(www_dot(), s) {
        s.skip(4)
    } else {
        s
    }
}

/// The first `n` characters of `s`, or all of `s` when it is shorter.
pub open spec fn first_n(s: Seq<char>, n: int) -> Seq<char> {
    if s.len() <= n {
        s
    } else {
        s.take(n)
    }
}

/// The last `n` characters of `s`, or all of `s` when it is shorter.
pub open spec fn last_n(s: Seq<char>, n: int) -> Seq<char> {
    if s.len() <= n {
        s
    } else {
        s.skip(s.len() - n)
    }
}

/// ASCII whitespace, the subset of Unicode whitespace that rule lines use.
pub open spec fn is_space(c: char) -> bool {
    c == ' ' || c == '\t' || c == '\n' || c == '\r' || c == '\u{b}' || c == '\u{c}'
}

pub open spec fn trim_start_spec(s: Seq<char>) -> Seq<char>
    decreases s.len(),
{
    if s.len() > 0 && is_space(s[0]) {
        trim_start_spec(s.drop_first())
    } else {
        s
    }
}

pub open spec fn trim_end_spec(s: Seq<char>) -> Seq<char>
    decreases s.len(),
{
    if s.len() > 0 && is_space(s[s.len() - 1]) {
        trim_end_spec(s.drop_last())
    } else {
        s
    }
}

/// `s` without leading and trailing ASCII whitespace.
pub open spec fn trim_spec(s: Seq<char>) -> Seq<char> {
    trim_end_spec(trim_start_spec(s))
}

/// How many times `c` occurs in `s`.
pub open spec fn count_ch(s: Seq<char>, c: char) -> int
    decreases s.len(),
{
    if s.len() == 0 {
        0
    } else {
        count_ch(s.drop_first(), c) + if s[0] == c {
            1int
        } else {
            0int
        }
    }
}

/// `pat` occurs in `s` starting at index `i`.
pub open spec fn sub_at(s: Seq<char>, pat: Seq<char>, i: int) -> bool {
    0 <= i && i + pat.len() <= s.len() && s.subrange(i, i + pat.len()) == pat
}

/// `pat` occurs somewhere in `s`.
pub open spec fn contains_sub(s: Seq<char>, pat: Seq<char>) -> bool {
    exists|i: int| sub_at(s, pat, i)
}

/// Index of the first occurrence of `pat` in `s`, or -1 when there is none.
pub open spec fn find_sub(s: Seq<char>, pat: Seq<char>) -> int
    decreases s.len(),
{
    if sub_at(s, pat, 0) {
        0
    } else if s.len() == 0 {
        -1
    } else {
        let r = find_sub(s.drop_first(), pat);
        if r < 0 {
            -1
        } else {
            r + 1
        }
    }
}

/// An ASCII upper-case letter.
pub open spec fn is_upper_ascii(c: char) -> bool {
    65 <= c as int && c as int <= 90
}

/// `c` equals `l` up to ASCII case, where `l` is already lower case.
pub open spec fn ci_eq(c: char, l: char) -> bool {
    c == l || (is_upper_ascii(c) && c as int + 32 == l as int)
}

/// `s` starts with the lower-case marker `low`, compared ASCII
/// case-insensitively.
pub open spec fn marker_match(s: Seq<char>, low: Seq<char>) -> bool {
    s.len() >= low.len() && forall|i: int| 0 <= i < low.len() ==> ci_eq(s[i], #[trigger] low[i])
}

/// The whole of `find_sub`'s meaning: it returns the first match position.
pub proof fn lemma_find_sub(s: Seq<char>, pat: Seq<char>)
    ensures
        contains_sub(s, pat) ==> 0 <= find_sub(s, pat) && sub_at(s, pat, find_sub(s, pat)),
        contains_sub(s, pat) ==> forall|j: int| 0 <= j < find_sub(s, pat) ==> !sub_at(s, pat, j),
        !contains_sub(s, pat) ==> find_sub(s, pat) == -1,
    decreases s.len(),
{
    if sub_at(s, pat, 0) {
    } else if s.len() == 0 {
        assert forall|i: int| !sub_at(s, pat, i) by {
            if 0 <= i && i + pat.len() <= s.len() {
                assert(i == 0);
            }
        }
    } else {
        let t = s.drop_first();
        lemma_find_sub(t, pat);
        assert forall|i: int| sub_at(s, pat, i) implies i >= 1 && sub_at(t, pat, i - 1) by {
            assert(i != 0);
            assert(t.subrange(i - 1, i - 1 + pat.len() as int) == s.subrange(
                i,
                i + pat.len() as int,
            ));
        }
        assert forall|i: int| sub_at(t, pat, i) implies sub_at(s, pat, i + 1) by {
            assert(s.subrange(i + 1, i + 1 + pat.len() as int) == t.subrange(
                i,
                i + pat.len() as int,
            ));
        }
        if contains_sub(s, pat) {
            let w = choose|i: int| sub_at(s, pat, i);
            assert(sub_at(t, pat, w - 1));
            assert(contains_sub(t, pat));
        }
        if contains_sub(t, pat) {
            let w = choose|i: int| sub_at(t, pat, i);
            assert(sub_at(s, pat, w + 1));
        }
    }
}

/// Character-for-character equality of two string slices.
pub fn str_eq(a: &str, b: &str) -> (r: bool)
    ensures
        r == (a@ == b@),
{
    let alen = a.unicode_len();
    let blen = b.unicode_len();
    if alen != blen {
        return false;
    }
    let mut i: usize = 0;
    while i < alen
        invariant
            alen == a@.len(),
            blen == b@.len(),
            alen == blen,
            i <= alen,
            forall|j: int| 0 <= j < i ==> a@[j] == b@[j],
        decreases alen - i,
    {
        if a.get_char(i) != b.get_char(i) {
            return false;
        }
        i += 1;
    }
    proof {
        assert(a@ =~= b@);
    }
    true
}

/// Does `s` start with `p`?
pub fn starts_with_str(s: &str, p: &str) -> (r: bool)
    ensures
        r == prefix_of(p@, s@),
{
    let slen = s.unicode_len();
    let plen = p.unicode_len();
    if plen > slen {
        return false;
    }
    let mut i: usize = 0;
    while i < plen
        invariant
            slen == s@.len(),
            plen == p@.len(),
            plen <= slen,
            i <= plen,
            forall|j: int| 0 <= j < i ==> s@[j] == p@[j],
        decreases plen - i,
    {
        if s.get_char(i) != p.get_char(i) {
            proof {
                assert(s@.take(p@.len() as int)[i as int] != p@[i as int]);
            }
            return false;
        }
        i += 1;
    }
    proof {
        assert(s@.take(p@.len() as int) =~= p@);
    }
    true
}

/// Does `s` end with `p`?
pub fn ends_with_str(s: &str, p: &str) -> (r: bool)
    ensures
        r == suffix_of(p@, s@),
{
    let slen = s.unicode_len();
    let plen = p.unicode_len();
    if plen > slen {
        return false;
    }
    let off = slen - plen;
    let mut i: usize = 0;
    while i < plen
        invariant
            slen == s@.len(),
            plen == p@.len(),
            plen <= slen,
            off == slen - plen,
            i <= plen,
            forall|j: int| 0 <= j < i ==> s@[off + j] == p@[j],
        decreases plen - i,
    {
        if s.get_char(off + i) != p.get_char(i) {
            proof {
                assert(s@.skip(s@.len() - p@.len())[i as int] != p@[i as int]);
            }
            return false;
        }
        i += 1;
    }
    proof {
        assert(s@.skip(s@.len() - p@.len()) =~= p@);
    }
    true
}

/// The characters of `s` from index `n` on.
pub fn skip_chars(s: &str, n: usize) -> (r: &str)
    requires
        n <= s@.len(),
    ensures
        r@ == s@.skip(n as int),
{
    let len = s.unicode_len();
    let r = s.substring_char(n, len);
    proof {
        assert(s@.subrange(n as int, s@.len() as int) =~= s@.skip(n as int));
    }
    r
}

/// The first `n` characters of `s`.
pub fn take_chars(s: &str, n: usize) -> (r: &str)
    requires
        n <= s@.len(),
    ensures
        r@ == s@.take(n as int),
{
    let r = s.substring_char(0, n);
    proof {
        assert(s@.subrange(0, n as int) =~= s@.take(n as int));
    }
    r
}

/// `a` followed by `b` as a fresh `String`.
pub fn concat_str(a: &str, b: &str) -> (r: String)
    ensures
        r@ == a@ + b@,
{
    let mut r = String::from_str(a);
    r.append(b);
    r
}

fn is_space_char(c: char) -> (r: bool)
    ensures
        r == is_space(c),
{
    c == ' ' || c == '\t' || c == '\n' || c == '\r' || c == '\u{b}' || c == '\u{c}'
}

proof fn lemma_trim_start_skip(s: Seq<char>, i: int)
    requires
        0 <= i <= s.len(),
        forall|j: int| 0 <= j < i ==> is_space(s[j]),
        i == s.len() || !is_space(s[i]),
    ensures
        trim_start_spec(s) == s.skip(i),
    decreases i,
{
    if i == 0 {
        assert(s.skip(0) =~= s);
    } else {
        let t = s.drop_first();
        assert(forall|j: int| 0 <= j < i - 1 ==> is_space(#[trigger] t[j]));
        lemma_trim_start_skip(t, i - 1);
        assert(t.skip(i - 1) =~= s.skip(i));
    }
}

proof fn lemma_trim_end_take(s: Seq<char>, i: int)
    requires
        0 <= i <= s.len(),
        forall|j: int| i <= j < s.len() ==> is_space(s[j]),
        i == 0 || !is_space(s[i - 1]),
    ensures
        trim_end_spec(s) == s.take(i),
    decreases s.len() - i,
{
    if i == s.len() {
        assert(s.take(i) =~= s);
    } else {
        let t = s.drop_last();
        assert(forall|j: int| i <= j < t.len() ==> is_space(#[trigger] t[j]));
        lemma_trim_end_take(t, i);
        assert(t.take(i) =~= s.take(i));
    }
}

/// `s` without leading and trailing ASCII whitespace.
pub fn trim_str(s: &str) -> (r: &str)
    ensures
        r@ == trim_spec(s@),
{
    let len = s.unicode_len();
    let mut start: usize = 0;
    while start < len && is_space_char(s.get_char(start))
        invariant
            len == s@.len(),
            start <= len,
            forall|j: int| 0 <= j < start ==> is_space(s@[j]),
        decreases len - start,
    {
        start += 1;
    }
    proof {
        lemma_trim_start_skip(s@, start as int);
    }
    let mut stop: usize = len;
    while stop > start && is_space_char(s.get_char(stop - 1))
        invariant
            len == s@.len(),
            start <= stop <= len,
            forall|j: int| 0 <= j < start ==> is_space(s@[j]),
            start == len || !is_space(s@[start as int]),
            forall|j: int| stop <= j < len ==> is_space(s@[j]),
        decreases stop,
    {
        stop -= 1;
    }
    let r = s.substring_char(start, stop);
    proof {
        let t = s@.skip(start as int);
        assert(forall|j: int| stop - start <= j < t.len() ==> is_space(#[trigger] t[j]));
        if stop > start {
            assert(!is_space(t[stop - start - 1]));
        }
        lemma_trim_end_take(t, stop - start);
        assert(t.take(stop - start) =~= s@.subrange(start as int, stop as int));
    }
    r
}

/// How many times `c` occurs in `s`, as a machine integer.
pub fn count_char(s: &str, c: char) -> (r: usize)
    ensures
        r == count_ch(s@, c),
{
    proof {
        lemma_count_ch_bound(s@, c);
    }
    let len = s.unicode_len();
    let mut i: usize = 0;
    let mut n: usize = 0;
    while i < len
        invariant
            len == s@.len(),
            i <= len,
            n == count_ch(s@.take(i as int), c),
            n <= i,
        decreases len - i,
    {
        proof {
            lemma_count_ch_snoc(s@.take(i as int + 1), c);
            assert(s@.take(i as int + 1).drop_last() =~= s@.take(i as int));
        }
        if s.get_char(i) == c {
            n += 1;
        }
        i += 1;
        proof {
            lemma_count_ch_bound(s@.take(i as int), c);
        }
    }
    proof {
        assert(s@.take(len as int) =~= s@);
    }
    n
}

proof fn lemma_count_ch_snoc(s: Seq<char>, c: char)
    requires
        s.len() > 0,
    ensures
        count_ch(s, c) == count_ch(s.drop_last(), c) + if s[s.len() - 1] == c {
            1int
        } else {
            0int
        },
    decreases s.len(),
{
    if s.len() == 1 {
        assert(s.drop_last() =~= Seq::<char>::empty());
        assert(s.drop_first() =~= Seq::<char>::empty());
    } else {
        lemma_count_ch_snoc(s.drop_first(), c);
        assert(s.drop_first().drop_last() =~= s.drop_last().drop_first());
        assert(s.drop_first()[s.drop_first().len() - 1] == s[s.len() - 1]);
        assert(s.drop_last()[0] == s[0]);
    }
}

proof fn lemma_count_ch_bound(s: Seq<char>, c: char)
    ensures
        0 <= count_ch(s, c) <= s.len(),
    decreases s.len(),
{
    if s.len() > 0 {
        lemma_count_ch_bound(s.drop_first(), c);
    }
}

/// Does `s` begin with the lower-case marker `low`, ASCII case-insensitively?
pub fn marker_match_str(s: &str, low: &str) -> (r: bool)
    ensures
        r == marker_match(s@, low@),
{
    let slen = s.unicode_len();
    let llen = low.unicode_len();
    if slen < llen {
        return false;
    }
    let mut i: usize = 0;
    while i < llen
        invariant
            slen == s@.len(),
            llen == low@.len(),
            llen <= slen,
            i <= llen,
            forall|j: int| 0 <= j < i ==> ci_eq(s@[j], #[trigger] low@[j]),
        decreases llen - i,
    {
        let c = s.get_char(i);
        let l = low.get_char(i);
        let cu = c as u32;
        let lu = l as u32;
        let ok = cu == lu || (65 <= cu && cu <= 90 && cu + 32 == lu);
        if !ok {
            return false;
        }
        i += 1;
    }
    true
}

/// `find_sub` returns exactly the first match position.
pub proof fn lemma_find_sub_is(s: Seq<char>, pat: Seq<char>, i: int)
    requires
        0 <= i,
        sub_at(s, pat, i),
        forall|j: int| 0 <= j < i ==> !sub_at(s, pat, j),
    ensures
        find_sub(s, pat) == i,
    decreases s.len(),
{
    if sub_at(s, pat, 0) {
        if i > 0 {
            assert(!sub_at(s, pat, 0));
        }
    } else {
        assert(i != 0);
        let t = s.drop_first();
        assert(t.subrange(i - 1, i - 1 + pat.len() as int) =~= s.subrange(i, i + pat.len() as int));
        assert(sub_at(t, pat, i - 1));
        assert forall|j: int| 0 <= j < i - 1 implies !sub_at(t, pat, j) by {
            if sub_at(t, pat, j) {
                assert(s.subrange(j + 1, j + 1 + pat.len() as int) =~= t.subrange(
                    j,
                    j + pat.len() as int,
                ));
                assert(sub_at(s, pat, j + 1));
            }
        }
        lemma_find_sub_is(t, pat, i - 1);
    }
}

/// When no occurrence exists, `find_sub` reports -1.
pub proof fn lemma_find_sub_none(s: Seq<char>, pat: Seq<char>)
    requires
        forall|j: int| !sub_at(s, pat, j),
    ensures
        find_sub(s, pat) == -1,
    decreases s.len(),
{
    if s.len() > 0 {
        let t = s.drop_first();
        assert forall|j: int| !sub_at(t, pat, j) by {
            if sub_at(t, pat, j) {
                assert(s.subrange(j + 1, j + 1 + pat.len() as int) =~= t.subrange(
                    j,
                    j + pat.len() as int,
                ));
                assert(sub_at(s, pat, j + 1));
            }
        }
        lemma_find_sub_none(t, pat);
    }
}

/// Index of the first occurrence of `pat` in `s`, if any.
pub fn find_sub_str(s: &str, pat: &str) -> (r: Option<usize>)
    ensures
        match r {
            Some(i) => find_sub(s@, pat@) == i,
            None => !contains_sub(s@, pat@),
        },
{
    let slen = s.unicode_len();
    let plen = pat.unicode_len();
    if plen == 0 {
        proof {
            assert(s@.subrange(0, 0) =~= pat@);
            assert(sub_at(s@, pat@, 0));
        }
        return Some(0);
    }
    if plen > slen {
        proof {
            lemma_find_sub_none(s@, pat@);
        }
        return None;
    }
    let mut i: usize = 0;
    while i <= slen - plen
        invariant
            slen == s@.len(),
            plen == pat@.len(),
            1 <= plen <= slen,
            i <= slen - plen + 1,
            forall|j: int| 0 <= j < i ==> !sub_at(s@, pat@, j),
        decreases slen - i,
    {
        let mut k: usize = 0;
        let mut hit = true;
        while k < plen && hit
            invariant
                slen == s@.len(),
                plen == pat@.len(),
                i + plen <= slen,
                k <= plen,
                hit ==> forall|j: int| 0 <= j < k ==> s@[i + j] == pat@[j],
                !hit ==> !sub_at(s@, pat@, i as int),
            decreases plen - k + (if hit { 1int } else { 0int }),
        {
            if s.get_char(i + k) != pat.get_char(k) {
                hit = false;
                proof {
                    assert(s@.subrange(i as int, i + plen as int)[k as int] != pat@[k as int]);
                }
            } else {
                k += 1;
            }
        }
        if hit {
            proof {
                assert(s@.subrange(i as int, i + plen as int) =~= pat@);
                assert(sub_at(s@, pat@, i as int));
                lemma_find_sub_is(s@, pat@, i as int);
            }
            return Some(i);
        }
        i += 1;
    }
    proof {
        assert forall|j: int| !sub_at(s@, pat@, j) by {
            if 0 <= j && j + pat@.len() <= s@.len() {
                assert(j < i);
            }
        }
        lemma_find_sub_none(s@, pat@);
    }
    None
}

} // verus!
