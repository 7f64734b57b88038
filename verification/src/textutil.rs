//! Character-level string scanning: trimming, prefix and suffix tests,
//! substring search, and splitting on a separator. Spec functions give
//! each operation a mathematical meaning over `Seq<char>`; the exec
//! functions are proved against them.
use vstd::prelude::*;

verus! {

/// The whitespace the board format can meet inside a line.
pub open spec fn is_space(c: char) -> bool {
    c == ' ' || c == '\t' || c == '\r'
}

/// The whitespace class as a predicate value.
pub open spec fn space_pred() -> spec_fn(char) -> bool {
    |c: char| is_space(c)
}

/// The class holding only `'='`, for column-header trimming.
pub open spec fn eq_pred() -> spec_fn(char) -> bool {
    |c: char| c == '='
}

/// `s` without its longest prefix of characters satisfying `p`.
pub open spec fn trim_start_by(s: Seq<char>, p: spec_fn(char) -> bool) -> Seq<char>
    decreases s.len(),
{
    if s.len() > 0 && p(s[0]) {
        trim_start_by(s.drop_first(), p)
    } else {
        s
    }
}

/// `s` without its longest suffix of characters satisfying `p`.
pub open spec fn trim_end_by(s: Seq<char>, p: spec_fn(char) -> bool) -> Seq<char>
    decreases s.len(),
{
    if s.len() > 0 && p(s.last()) {
        trim_end_by(s.drop_last(), p)
    } else {
        s
    }
}

/// What `str::trim` leaves of `s` (over the whitespace this format meets).
pub open spec fn trim_spec(s: Seq<char>) -> Seq<char> {
    trim_end_by(trim_start_by(s, space_pred()), space_pred())
}

/// What `str::trim_matches('=')` leaves of `s`.
pub open spec fn trim_eq_spec(s: Seq<char>) -> Seq<char> {
    trim_end_by(trim_start_by(s, eq_pred()), eq_pred())
}

/// Start-trimming takes the suffix from the first index that fails `p`.
pub proof fn lemma_trim_start_by_at(s: Seq<char>, p: spec_fn(char) -> bool, k: int)
    requires
        0 <= k <= s.len(),
        forall|j: int| 0 <= j < k ==> p(s[j]),
        k < s.len() ==> !p(s[k]),
    ensures
        trim_start_by(s, p) == s.subrange(k, s.len() as int),
    decreases k,
{
    if k == 0 {
        assert(s.subrange(0, s.len() as int) =~= s);
    } else {
        let d = s.drop_first();
        assert(p(s[0]));
        assert(forall|j: int| 0 <= j < k - 1 ==> d[j] == s[j + 1]);
        lemma_trim_start_by_at(d, p, k - 1);
        assert(d.subrange(k - 1, d.len() as int) =~= s.subrange(k, s.len() as int));
    }
}

/// End-trimming takes the prefix up to the last index that fails `p`.
pub proof fn lemma_trim_end_by_at(s: Seq<char>, p: spec_fn(char) -> bool, e: int)
    requires
        0 <= e <= s.len(),
        forall|j: int| e <= j < s.len() ==> p(s[j]),
        e > 0 ==> !p(s[e - 1]),
    ensures
        trim_end_by(s, p) == s.subrange(0, e),
    decreases s.len() - e,
{
    if e == s.len() {
        assert(s.subrange(0, e) =~= s);
    } else {
        let d = s.drop_last();
        assert(p(s.last()));
        assert(forall|j: int| 0 <= j < d.len() ==> d[j] == s[j]);
        lemma_trim_end_by_at(d, p, e);
        assert(d.subrange(0, e) =~= s.subrange(0, e));
    }
}

/// What `str::trim` leaves of `s[from..to]`, as an owned string.
pub fn trim_range(s: &str, from: usize, to: usize) -> (r: String)
    requires
        from <= to <= s@.len(),
    ensures
        r@ == trim_spec(s@.subrange(from as int, to as int)),
{
    let ghost sub = s@.subrange(from as int, to as int);
    let mut a: usize = from;
    while a < to && is_space_c(s.get_char(a))
        invariant
            from <= a <= to <= s@.len(),
            forall|j: int| 0 <= j < a - from ==> is_space(sub[j]),
            sub == s@.subrange(from as int, to as int),
        decreases to - a,
    {
        a += 1;
    }
    proof {
        lemma_trim_start_by_at(sub, space_pred(), a - from);
    }
    let ghost tail = sub.subrange(a - from, sub.len() as int);
    if a == to {
        proof {
            assert(tail =~= Seq::<char>::empty());
            lemma_trim_end_by_at(tail, space_pred(), 0);
            assert(tail.subrange(0, 0) =~= Seq::<char>::empty());
            reveal_strlit("");
            assert(""@ =~= Seq::<char>::empty());
        }
        return "".to_owned();
    }
    let mut b: usize = to;
    while b > a && is_space_c(s.get_char(b - 1))
        invariant
            from <= a <= b <= to <= s@.len(),
            forall|j: int| b - from <= j < sub.len() ==> is_space(sub[j]),
            sub == s@.subrange(from as int, to as int),
            !is_space(sub[a - from]),
        decreases b,
    {
        b -= 1;
    }
    proof {
        assert(b > a);
        assert(forall|j: int| 0 <= j < tail.len() ==> tail[j] == sub[j + a - from]);
        lemma_trim_end_by_at(tail, space_pred(), b - a);
        assert(tail.subrange(0, b - a) =~= s@.subrange(a as int, b as int));
    }
    let piece = s.substring_char(a, b);
    piece.to_owned()
}

/// What `str::trim_matches('=')` leaves of the whole of `s`.
pub fn trim_eq_owned(s: &str) -> (r: String)
    ensures
        r@ == trim_eq_spec(s@),
{
    let len = s.unicode_len();
    let mut a: usize = 0;
    while a < len && s.get_char(a) == '='
        invariant
            0 <= a <= len,
            len == s@.len(),
            forall|j: int| 0 <= j < a ==> s@[j] == '=',
        decreases len - a,
    {
        a += 1;
    }
    proof {
        lemma_trim_start_by_at(s@, eq_pred(), a as int);
    }
    let ghost tail = s@.subrange(a as int, s@.len() as int);
    if a == len {
        proof {
            assert(tail =~= Seq::<char>::empty());
            lemma_trim_end_by_at(tail, eq_pred(), 0);
            assert(tail.subrange(0, 0) =~= Seq::<char>::empty());
            reveal_strlit("");
            assert(""@ =~= Seq::<char>::empty());
        }
        return "".to_owned();
    }
    let mut b: usize = len;
    while b > a && s.get_char(b - 1) == '='
        invariant
            0 <= a <= b <= len,
            len == s@.len(),
            forall|j: int| b <= j < len ==> s@[j] == '=',
            s@[a as int] != '=',
        decreases b,
    {
        b -= 1;
    }
    proof {
        assert(b > a);
        assert(forall|j: int| 0 <= j < tail.len() ==> tail[j] == s@[j + a]);
        lemma_trim_end_by_at(tail, eq_pred(), b - a);
        assert(tail.subrange(0, b - a) =~= s@.subrange(a as int, b as int));
    }
    let piece = s.substring_char(a, b);
    piece.to_owned()
}

/// Relies on `String::push`: appends exactly the one character.
#[verifier::external_body]
pub fn push_char(s: &mut String, c: char)
    ensures
        final(s)@ == old(s)@.push(c),
{
    s.push(c)
}

/// Relies on `String::pop`: removes and returns the last character,
/// or returns nothing from an empty string.
#[verifier::external_body]
pub fn pop_char(s: &mut String) -> (r: Option<char>)
    ensures
        old(s)@.len() == 0 ==> r is None && final(s)@ == old(s)@,
        old(s)@.len() > 0 ==> r == Some(old(s)@.last()) && final(s)@ == old(s)@.drop_last(),
{
    s.pop()
}

/// Whether `c` is whitespace for this format.
pub fn is_space_c(c: char) -> (r: bool)
    ensures
        r == is_space(c),
{
    c == ' ' || c == '\t' || c == '\r'
}

/// Whether `p` stands at the start of `s`.
pub open spec fn starts_with_spec(s: Seq<char>, p: Seq<char>) -> bool {
    s.len() >= p.len() && s.subrange(0, p.len() as int) == p
}

/// Whether `p` stands at the end of `s`.
pub open spec fn ends_with_spec(s: Seq<char>, p: Seq<char>) -> bool {
    s.len() >= p.len() && s.subrange(s.len() - p.len(), s.len() as int) == p
}

/// Whether `p` stands in `s` at position `k`.
pub open spec fn occurs_at(s: Seq<char>, p: Seq<char>, k: int) -> bool {
    0 <= k <= s.len() - p.len() && s.subrange(k, k + p.len()) == p
}

/// The least position where `p` stands in `s`, or -1.
pub open spec fn find_sub_spec(s: Seq<char>, p: Seq<char>) -> int
    decreases s.len(),
{
    if s.len() < p.len() {
        -1
    } else if p.len() == 0 {
        0
    } else if s.subrange(0, p.len() as int) == p {
        0
    } else {
        let r = find_sub_spec(s.drop_first(), p);
        if r < 0 {
            -1
        } else {
            1 + r
        }
    }
}

/// The least position of `c` in `s`, or -1.
pub open spec fn find_ch_spec(s: Seq<char>, c: char) -> int
    decreases s.len(),
{
    if s.len() == 0 {
        -1
    } else if s[0] == c {
        0
    } else {
        let r = find_ch_spec(s.drop_first(), c);
        if r < 0 {
            -1
        } else {
            1 + r
        }
    }
}

/// Whether `c` stands nowhere in `s`.
pub open spec fn has_no_ch(s: Seq<char>, c: char) -> bool {
    forall|i: int| 0 <= i < s.len() ==> s[i] != c
}

/// Whether `p` stands nowhere in `s`.
pub open spec fn has_no_sub(s: Seq<char>, p: Seq<char>) -> bool {
    forall|k: int| !occurs_at(s, p, k)
}

pub proof fn lemma_find_ch_bounds(s: Seq<char>, c: char)
    ensures
        -1 <= find_ch_spec(s, c) < s.len(),
        find_ch_spec(s, c) >= 0 ==> s[find_ch_spec(s, c)] == c,
        find_ch_spec(s, c) == -1 <==> has_no_ch(s, c),
        forall|i: int| 0 <= i < find_ch_spec(s, c) ==> s[i] != c,
    decreases s.len(),
{
    if s.len() > 0 && s[0] != c {
        let d = s.drop_first();
        lemma_find_ch_bounds(d, c);
        let r = find_ch_spec(s, c);
        if find_ch_spec(d, c) == -1 {
            assert forall|i: int| 0 <= i < s.len() implies s[i] != c by {
                if i > 0 {
                    assert(d[i - 1] == s[i]);
                }
            }
        } else {
            assert(s[r] == d[r - 1]);
            assert forall|i: int| 0 <= i < r implies s[i] != c by {
                if i > 0 {
                    assert(d[i - 1] == s[i]);
                }
            }
        }
    }
}

pub proof fn lemma_find_ch_first(s: Seq<char>, c: char, i: int)
    requires
        0 <= i < s.len(),
        s[i] == c,
        forall|k: int| 0 <= k < i ==> s[k] != c,
    ensures
        find_ch_spec(s, c) == i,
    decreases s.len(),
{
    if i > 0 {
        let d = s.drop_first();
        assert forall|k: int| 0 <= k < i - 1 implies d[k] != c by {
            assert(d[k] == s[k + 1]);
        }
        assert(d[i - 1] == s[i]);
        lemma_find_ch_first(d, c, i - 1);
    }
}

/// Occurrences in the rest of a string shift by one.
proof fn lemma_occurs_shift(s: Seq<char>, p: Seq<char>, k: int)
    requires
        s.len() > 0,
        0 <= k,
    ensures
        occurs_at(s.drop_first(), p, k) == occurs_at(s, p, k + 1),
{
    let d = s.drop_first();
    if 0 <= k <= d.len() - p.len() {
        assert(d.subrange(k, k + p.len() as int) =~= s.subrange(k + 1, k + 1 + p.len() as int));
    }
}

pub proof fn lemma_find_sub_bounds(s: Seq<char>, p: Seq<char>)
    ensures
        -1 <= find_sub_spec(s, p),
        find_sub_spec(s, p) >= 0 ==> occurs_at(s, p, find_sub_spec(s, p)),
        find_sub_spec(s, p) == -1 <==> has_no_sub(s, p),
        forall|k: int| 0 <= k < find_sub_spec(s, p) ==> !occurs_at(s, p, k),
    decreases s.len(),
{
    if s.len() < p.len() {
        assert forall|k: int| !occurs_at(s, p, k) by {}
    } else if p.len() == 0 {
        assert(s.subrange(0, 0) =~= p);
        assert(occurs_at(s, p, 0));
    } else if s.subrange(0, p.len() as int) == p {
        assert(occurs_at(s, p, 0));
    } else {
        let d = s.drop_first();
        lemma_find_sub_bounds(d, p);
        let r = find_sub_spec(s, p);
        assert(!occurs_at(s, p, 0));
        if find_sub_spec(d, p) == -1 {
            assert forall|k: int| !occurs_at(s, p, k) by {
                if k >= 1 {
                    lemma_occurs_shift(s, p, k - 1);
                } else if k == 0 {
                    assert(!occurs_at(s, p, 0));
                }
            }
        } else {
            lemma_occurs_shift(s, p, r - 1);
            assert forall|k: int| 0 <= k < r implies !occurs_at(s, p, k) by {
                if k >= 1 {
                    lemma_occurs_shift(s, p, k - 1);
                }
            }
        }
    }
}

pub proof fn lemma_find_sub_first(s: Seq<char>, p: Seq<char>, i: int)
    requires
        occurs_at(s, p, i),
        forall|k: int| 0 <= k < i ==> !occurs_at(s, p, k),
    ensures
        find_sub_spec(s, p) == i,
    decreases s.len(),
{
    if i == 0 {
        assert(s.subrange(0, p.len() as int) == p);
    } else {
        if p.len() == 0 {
            assert(s.subrange(0, 0) =~= p);
            assert(occurs_at(s, p, 0));
        }
        let d = s.drop_first();
        assert(!occurs_at(s, p, 0));
        assert(s.subrange(0, p.len() as int) != p);
        lemma_occurs_shift(s, p, i - 1);
        assert forall|k: int| 0 <= k < i - 1 implies !occurs_at(d, p, k) by {
            lemma_occurs_shift(s, p, k);
        }
        lemma_find_sub_first(d, p, i - 1);
    }
}

/// The least position of `c` in `s`, if any.
pub fn find_ch_str(s: &str, c: char) -> (r: Option<usize>)
    ensures
        match r {
            Some(k) => find_ch_spec(s@, c) == k as int,
            None => find_ch_spec(s@, c) == -1,
        },
{
    let len = s.unicode_len();
    let mut i: usize = 0;
    while i < len
        invariant
            len == s@.len(),
            i <= len,
            forall|m: int| 0 <= m < i ==> s@[m] != c,
        decreases len - i,
    {
        if s.get_char(i) == c {
            proof {
                lemma_find_ch_first(s@, c, i as int);
            }
            return Some(i);
        }
        i += 1;
    }
    proof {
        lemma_find_ch_bounds(s@, c);
    }
    None
}

/// Whether the characters of `p` stand at position `k` of `s`.
fn occurs_at_exec(s: &str, p: &str, k: usize) -> (r: bool)
    requires
        k + p@.len() <= s@.len(),
        s@.len() <= usize::MAX,
    ensures
        r == occurs_at(s@, p@, k as int),
{
    let plen = p.unicode_len();
    let mut j: usize = 0;
    while j < plen
        invariant
            plen == p@.len(),
            k + plen <= s@.len(),
            s@.len() <= usize::MAX,
            j <= plen,
            forall|m: int| 0 <= m < j ==> s@[k + m] == p@[m],
        decreases plen - j,
    {
        if s.get_char(k + j) != p.get_char(j) {
            proof {
                assert(s@.subrange(k as int, k + p@.len()) != p@) by {
                    assert(s@.subrange(k as int, k + p@.len())[j as int] == s@[k + j]);
                }
            }
            return false;
        }
        j += 1;
    }
    proof {
        assert(s@.subrange(k as int, k + p@.len()) =~= p@);
    }
    true
}

/// Whether `s` starts with `p`.
pub fn starts_with_str(s: &str, p: &str) -> (r: bool)
    ensures
        r == starts_with_spec(s@, p@),
{
    let plen = p.unicode_len();
    let slen = s.unicode_len();
    if slen < plen {
        return false;
    }
    occurs_at_exec(s, p, 0)
}

/// Whether `s` ends with `p`.
pub fn ends_with_str(s: &str, p: &str) -> (r: bool)
    ensures
        r == ends_with_spec(s@, p@),
{
    let plen = p.unicode_len();
    let slen = s.unicode_len();
    if slen < plen {
        return false;
    }
    occurs_at_exec(s, p, slen - plen)
}

/// The least position where `p` stands in `s`, if any.
pub fn find_sub_str(s: &str, p: &str) -> (r: Option<usize>)
    ensures
        match r {
            Some(k) => find_sub_spec(s@, p@) == k as int,
            None => find_sub_spec(s@, p@) == -1,
        },
{
    let plen = p.unicode_len();
    let slen = s.unicode_len();
    if slen < plen {
        proof {
            lemma_find_sub_bounds(s@, p@);
        }
        return None;
    }
    if plen == 0 {
        return Some(0);
    }
    let mut k: usize = 0;
    while k <= slen - plen
        invariant
            plen == p@.len(),
            slen == s@.len(),
            0 < plen <= slen,
            k <= slen - plen + 1,
            forall|m: int| 0 <= m < k ==> !occurs_at(s@, p@, m),
        decreases slen - k,
    {
        if occurs_at_exec(s, p, k) {
            proof {
                lemma_find_sub_first(s@, p@, k as int);
            }
            return Some(k);
        }
        k += 1;
    }
    proof {
        assert forall|m: int| !occurs_at(s@, p@, m) by {}
        lemma_find_sub_bounds(s@, p@);
    }
    None
}

/// The pieces of `s` between occurrences of `sep`, in order; one more
/// piece than there are separators, each possibly empty.
pub open spec fn split_ch_spec(s: Seq<char>, sep: char) -> Seq<Seq<char>>
    decreases s.len(),
{
    if s.len() == 0 {
        seq![Seq::<char>::empty()]
    } else if s[0] == sep {
        seq![Seq::<char>::empty()] + split_ch_spec(s.drop_first(), sep)
    } else {
        let r = split_ch_spec(s.drop_first(), sep);
        seq![seq![s[0]] + r[0]] + r.drop_first()
    }
}

/// Splitting yields at least one piece.
pub proof fn lemma_split_len_pos(s: Seq<char>, sep: char)
    ensures
        split_ch_spec(s, sep).len() >= 1,
    decreases s.len(),
{
    if s.len() > 0 {
        lemma_split_len_pos(s.drop_first(), sep);
    }
}

/// Splitting, described by the first separator: everything before it is
/// the first piece and the rest splits on its own.
pub proof fn lemma_split_by_first(s: Seq<char>, sep: char)
    ensures
        find_ch_spec(s, sep) == -1 ==> split_ch_spec(s, sep) == seq![s],
        find_ch_spec(s, sep) >= 0 ==> split_ch_spec(s, sep) == seq![
            s.subrange(0, find_ch_spec(s, sep)),
        ] + split_ch_spec(
            s.subrange(find_ch_spec(s, sep) + 1, s.len() as int),
            sep,
        ),
    decreases s.len(),
{
    lemma_find_ch_bounds(s, sep);
    if s.len() == 0 {
        assert(s =~= Seq::<char>::empty());
        assert(split_ch_spec(s, sep) =~= seq![s]);
    } else if s[0] == sep {
        assert(s.subrange(0, 0) =~= Seq::<char>::empty());
        assert(s.subrange(1, s.len() as int) =~= s.drop_first());
        assert(split_ch_spec(s, sep) =~= seq![s.subrange(0, 0)] + split_ch_spec(
            s.subrange(1, s.len() as int),
            sep,
        ));
    } else {
        let d = s.drop_first();
        lemma_split_by_first(d, sep);
        lemma_split_len_pos(d, sep);
        lemma_find_ch_bounds(d, sep);
        let r = split_ch_spec(d, sep);
        let j = find_ch_spec(s, sep);
        if find_ch_spec(d, sep) == -1 {
            assert(j == -1);
            assert(r == seq![d]);
            assert(seq![s[0]] + r[0] =~= s);
            assert(split_ch_spec(s, sep) =~= seq![s]);
        } else {
            let jd = find_ch_spec(d, sep);
            assert(j == jd + 1);
            assert(r[0] == d.subrange(0, jd));
            assert(r.drop_first() =~= split_ch_spec(d.subrange(jd + 1, d.len() as int), sep));
            assert(seq![s[0]] + d.subrange(0, jd) =~= s.subrange(0, j));
            assert(d.subrange(jd + 1, d.len() as int) =~= s.subrange(j + 1, s.len() as int));
            assert(split_ch_spec(s, sep) =~= seq![s.subrange(0, j)] + split_ch_spec(
                s.subrange(j + 1, s.len() as int),
                sep,
            ));
        }
    }
}

/// Splitting a string built as `a`, a separator, then `b`, where `a`
/// holds no separator: `a` becomes the first piece.
pub proof fn lemma_split_glue(a: Seq<char>, b: Seq<char>, sep: char)
    requires
        has_no_ch(a, sep),
    ensures
        split_ch_spec(a + seq![sep] + b, sep) == seq![a] + split_ch_spec(b, sep),
{
    let s = a + seq![sep] + b;
    assert(s[a.len() as int] == sep);
    assert forall|k: int| 0 <= k < a.len() implies s[k] != sep by {
        assert(s[k] == a[k]);
    }
    lemma_find_ch_first(s, sep, a.len() as int);
    lemma_split_by_first(s, sep);
    assert(s.subrange(0, a.len() as int) =~= a);
    assert(s.subrange(a.len() as int + 1, s.len() as int) =~= b);
}

/// A string holding no separator splits into itself alone.
pub proof fn lemma_split_whole(s: Seq<char>, sep: char)
    requires
        has_no_ch(s, sep),
    ensures
        split_ch_spec(s, sep) == seq![s],
{
    lemma_find_ch_bounds(s, sep);
    lemma_split_by_first(s, sep);
}

/// The pieces of `s[from..to]` between occurrences of `sep`.
pub fn split_range(s: &str, from: usize, to: usize, sep: char) -> (parts: Vec<String>)
    requires
        from <= to <= s@.len(),
    ensures
        parts.deep_view() == split_ch_spec(s@.subrange(from as int, to as int), sep),
{
    let ghost whole = s@.subrange(from as int, to as int);
    let mut parts: Vec<String> = Vec::new();
    let mut pos: usize = from;
    loop
        invariant
            from <= pos <= to <= s@.len(),
            whole == s@.subrange(from as int, to as int),
            split_ch_spec(whole, sep) == parts.deep_view() + split_ch_spec(
                s@.subrange(pos as int, to as int),
                sep,
            ),
        ensures
            parts.deep_view() == split_ch_spec(whole, sep),
        decreases to - pos,
    {
        let ghost rem = s@.subrange(pos as int, to as int);
        let mut i: usize = pos;
        while i < to && s.get_char(i) != sep
            invariant
                pos <= i <= to <= s@.len(),
                rem == s@.subrange(pos as int, to as int),
                forall|m: int| 0 <= m < i - pos ==> rem[m] != sep,
            decreases to - i,
        {
            i += 1;
        }
        let piece = s.substring_char(pos, i).to_owned();
        let ghost piece_v = s@.subrange(pos as int, i as int);
        if i == to {
            proof {
                assert(forall|m: int| 0 <= m < rem.len() ==> rem[m] != sep);
                lemma_split_whole(rem, sep);
                assert(piece_v =~= rem);
            }
            parts.push(piece);
            proof {
                assert(parts.deep_view() =~= split_ch_spec(whole, sep));
            }
            return parts;
        } else {
            proof {
                assert(s@[i as int] == sep);
                assert(rem[i - pos] == sep);
                lemma_find_ch_first(rem, sep, i - pos);
                lemma_split_by_first(rem, sep);
                assert(rem.subrange(0, i - pos) =~= piece_v);
                assert(rem.subrange(i - pos + 1, rem.len() as int) =~= s@.subrange(
                    i + 1,
                    to as int,
                ));
            }
            parts.push(piece);
            pos = i + 1;
            proof {
                assert(split_ch_spec(whole, sep) =~= parts.deep_view() + split_ch_spec(
                    s@.subrange(pos as int, to as int),
                    sep,
                ));
            }
        }
    }
}

} // verus!
