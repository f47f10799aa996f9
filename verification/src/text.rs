//! Verified text utilities over `Seq<char>` views: whitespace trimming,
//! equality, substring search, splitting and joining on a separator, and
//! rendering unsigned integers in decimal.

use vstd::prelude::*;

verus! {

/// The Unicode `White_Space` characters, as `str::trim` understands them.
pub open spec fn is_ws(c: char) -> bool {
    c == ' ' || c == '\t' || c == '\n' || c == '\r' || c == '\u{000b}' || c == '\u{000c}'
        || c == '\u{0085}' || c == '\u{00a0}' || c == '\u{1680}' || c == '\u{2000}'
        || c == '\u{2001}' || c == '\u{2002}' || c == '\u{2003}' || c == '\u{2004}'
        || c == '\u{2005}' || c == '\u{2006}' || c == '\u{2007}' || c == '\u{2008}'
        || c == '\u{2009}' || c == '\u{200a}' || c == '\u{2028}' || c == '\u{2029}'
        || c == '\u{202f}' || c == '\u{205f}' || c == '\u{3000}'
}

pub open spec fn trim_front(s: Seq<char>) -> Seq<char>
    decreases s.len(),
{
    if s.len() == 0 {
        s
    } else if is_ws(s[0]) {
        trim_front(s.drop_first())
    } else {
        s
    }
}

pub open spec fn trim_back(s: Seq<char>) -> Seq<char>
    decreases s.len(),
{
    if s.len() == 0 {
        s
    } else if is_ws(s.last()) {
        trim_back(s.drop_last())
    } else {
        s
    }
}

/// What `str::trim` leaves: the text with leading and trailing whitespace gone.
pub open spec fn trimmed(s: Seq<char>) -> Seq<char> {
    trim_back(trim_front(s))
}

/// Empty or whitespace only.
pub open spec fn is_blank(s: Seq<char>) -> bool {
    trimmed(s).len() == 0
}

proof fn lemma_trim_front_subrange(s: Seq<char>, k: int)
    requires
        0 <= k <= s.len(),
        forall|i: int| 0 <= i < k ==> is_ws(s[i]),
        k < s.len() ==> !is_ws(s[k]),
    ensures
        trim_front(s) =~= s.subrange(k, s.len() as int),
    decreases k,
{
    if k == 0 {
        if s.len() > 0 {
            assert(trim_front(s) =~= s.subrange(0, s.len() as int));
        }
    } else {
        let t = s.drop_first();
        assert(forall|i: int| 0 <= i < k - 1 ==> is_ws(#[trigger] t[i]));
        lemma_trim_front_subrange(t, k - 1);
        assert(t.subrange(k - 1, t.len() as int) =~= s.subrange(k, s.len() as int));
    }
}

proof fn lemma_trim_back_subrange(s: Seq<char>, h: int)
    requires
        0 <= h <= s.len(),
        forall|i: int| h <= i < s.len() ==> is_ws(s[i]),
        h > 0 ==> !is_ws(s[h - 1]),
    ensures
        trim_back(s) =~= s.subrange(0, h),
    decreases s.len(),
{
    if s.len() == 0 {
    } else if is_ws(s.last()) {
        let t = s.drop_last();
        assert(forall|i: int| h <= i < t.len() ==> is_ws(#[trigger] t[i]));
        lemma_trim_back_subrange(t, h);
        assert(t.subrange(0, h) =~= s.subrange(0, h));
    } else {
        assert(h == s.len());
        assert(trim_back(s) =~= s.subrange(0, h));
    }
}

proof fn lemma_trim_back_keeps_first(s: Seq<char>)
    requires
        s.len() > 0,
        !is_ws(s[0]),
    ensures
        trim_back(s).len() > 0,
    decreases s.len(),
{
    if is_ws(s.last()) {
        lemma_trim_back_keeps_first(s.drop_last());
    }
}

/// Character-wise string equality, pinned to view equality.
pub fn str_eq(a: &str, b: &str) -> (r: bool)
    ensures
        r == (a@ == b@),
{
    let an: usize = a.unicode_len();
    let bn: usize = b.unicode_len();
    if an != bn {
        assert(a@ != b@) by {
            assert(a@.len() != b@.len());
        }
        return false;
    }
    let mut i: usize = 0;
    while i < an
        invariant
            an == a@.len(),
            an == b@.len(),
            0 <= i <= an,
            forall|j: int| 0 <= j < i ==> a@[j] == b@[j],
        decreases an - i,
    {
        if a.get_char(i) != b.get_char(i) {
            return false;
        }
        i += 1;
    }
    proof {
        assert(a@ =~= b@);
    }
    true
}

/// Equality of a `String` against a literal or borrowed `str`.
pub fn string_eq_str(a: &String, b: &str) -> (r: bool)
    ensures
        r == (a@ == b@),
{
    str_eq(a.as_str(), b)
}

/// Trims leading and trailing whitespace.
pub fn str_trim(s: &str) -> (r: String)
    ensures
        r@ == trimmed(s@),
{
    let n: usize = s.unicode_len();
    let mut lo: usize = 0;
    while lo < n && is_ws_exec(s.get_char(lo))
        invariant
            n == s@.len(),
            0 <= lo <= n,
            forall|i: int| 0 <= i < lo ==> is_ws(s@[i]),
        decreases n - lo,
    {
        lo += 1;
    }
    if lo == n {
        proof {
            lemma_trim_front_subrange(s@, n as int);
            assert(trim_front(s@).len() == 0);
            assert(trimmed(s@) =~= Seq::<char>::empty());
        }
        return String::new();
    }
    let mut hi: usize = n;
    while hi > lo && is_ws_exec(s.get_char(hi - 1))
        invariant
            n == s@.len(),
            0 <= lo <= hi <= n,
            lo < n,
            !is_ws(s@[lo as int]),
            forall|i: int| 0 <= i < lo ==> is_ws(s@[i]),
            forall|i: int| hi <= i < n ==> is_ws(s@[i]),
        decreases hi,
    {
        hi -= 1;
    }
    assert(hi > lo);
    assert(!is_ws(s@[hi - 1]));
    let piece = s.substring_char(lo, hi);
    proof {
        lemma_trim_front_subrange(s@, lo as int);
        let t = s@.subrange(lo as int, s@.len() as int);
        assert(forall|i: int| hi - lo <= i < t.len() ==> is_ws(#[trigger] t[i]));
        assert(t[hi - lo - 1] == s@[hi - 1]);
        lemma_trim_back_subrange(t, hi - lo);
        assert(t.subrange(0, hi - lo) =~= s@.subrange(lo as int, hi as int));
    }
    String::from_str(piece)
}

/// Whether the text is empty or whitespace only (empty after trimming).
pub fn str_is_blank(s: &str) -> (r: bool)
    ensures
        r == is_blank(s@),
{
    let n: usize = s.unicode_len();
    let mut lo: usize = 0;
    while lo < n && is_ws_exec(s.get_char(lo))
        invariant
            n == s@.len(),
            0 <= lo <= n,
            forall|i: int| 0 <= i < lo ==> is_ws(s@[i]),
        decreases n - lo,
    {
        lo += 1;
    }
    if lo == n {
        proof {
            lemma_trim_front_subrange(s@, n as int);
        }
        true
    } else {
        proof {
            lemma_trim_front_subrange(s@, lo as int);
            let t = s@.subrange(lo as int, s@.len() as int);
            lemma_trim_back_keeps_first(t);
        }
        false
    }
}

/// Relies on `String::push`: appends exactly the one character.
#[verifier::external_body]
pub(crate) fn push_char(s: &mut String, c: char)
    ensures
        final(s)@ == old(s)@.push(c),
{
    s.push(c);
}

/// Executable twin of `is_ws`.
pub fn is_ws_exec(c: char) -> (r: bool)
    ensures
        r == is_ws(c),
{
    c == ' ' || c == '\t' || c == '\n' || c == '\r' || c == '\u{000b}' || c == '\u{000c}'
        || c == '\u{0085}' || c == '\u{00a0}' || c == '\u{1680}' || c == '\u{2000}'
        || c == '\u{2001}' || c == '\u{2002}' || c == '\u{2003}' || c == '\u{2004}'
        || c == '\u{2005}' || c == '\u{2006}' || c == '\u{2007}' || c == '\u{2008}'
        || c == '\u{2009}' || c == '\u{200a}' || c == '\u{2028}' || c == '\u{2029}'
        || c == '\u{202f}' || c == '\u{205f}' || c == '\u{3000}'
}

/// Whether `needle` occurs contiguously inside `hay`.
pub open spec fn contains_sub(hay: Seq<char>, needle: Seq<char>) -> bool {
    exists|i: int|
        0 <= i && i + needle.len() <= hay.len() && #[trigger] hay.subrange(
            i,
            i + needle.len() as int,
        ) == needle
}

/// Substring search by direct comparison at every offset.
pub fn str_contains(hay: &str, needle: &str) -> (r: bool)
    ensures
        r == contains_sub(hay@, needle@),
{
    let hn: usize = hay.unicode_len();
    let nn: usize = needle.unicode_len();
    if nn > hn {
        assert(!contains_sub(hay@, needle@));
        return false;
    }
    if nn == 0 {
        proof {
            assert(hay@.subrange(0, 0 + needle@.len() as int) =~= needle@);
            assert(contains_sub(hay@, needle@));
        }
        return true;
    }
    let mut i: usize = 0;
    while i <= hn - nn
        invariant
            hn == hay@.len(),
            nn == needle@.len(),
            0 < nn <= hn,
            0 <= i <= hn - nn + 1,
            forall|k: int|
                0 <= k < i ==> #[trigger] hay@.subrange(k, k + nn as int) != needle@,
        decreases hn - nn - i + 1,
    {
        let mut j: usize = 0;
        let mut hit: bool = true;
        while j < nn
            invariant
                hn == hay@.len(),
                nn == needle@.len(),
                0 <= i <= hn - nn,
                0 <= j <= nn,
                hit ==> forall|k: int| 0 <= k < j ==> hay@[i + k] == needle@[k],
                !hit ==> hay@.subrange(i as int, i + nn as int) != needle@,
            decreases nn - j,
        {
            if hay.get_char(i + j) != needle.get_char(j) {
                proof {
                    let piece = hay@.subrange(i as int, i + nn as int);
                    assert(piece[j as int] == hay@[i + j]);
                }
                hit = false;
                j = nn;
            } else {
                j += 1;
            }
        }
        if hit {
            proof {
                assert(hay@.subrange(i as int, i + nn as int) =~= needle@);
            }
            return true;
        }
        i += 1;
    }
    proof {
        assert forall|k: int| 0 <= k && k + needle@.len() <= hay@.len() implies #[trigger] hay@
            .subrange(k, k + needle@.len() as int) != needle@ by {
            assert(k < i);
        }
    }
    false
}

/// Splitting on a separator character; the last piece is built first, so that
/// extending the text by one character reshapes only the last piece.
pub open spec fn split_char(s: Seq<char>, sep: char) -> Seq<Seq<char>>
    decreases s.len(),
{
    if s.len() == 0 {
        seq![s]
    } else if s.last() == sep {
        split_char(s.drop_last(), sep).push(Seq::empty())
    } else {
        let prior = split_char(s.drop_last(), sep);
        prior.update(prior.len() - 1, prior.last().push(s.last()))
    }
}

proof fn lemma_split_char_len(s: Seq<char>, sep: char)
    ensures
        split_char(s, sep).len() >= 1,
    decreases s.len(),
{
    if s.len() > 0 {
        lemma_split_char_len(s.drop_last(), sep);
    }
}

/// Splits on a character, as `str::split` does: n separators give n+1 pieces.
pub fn split_str(s: &str, sep: char) -> (r: Vec<String>)
    ensures
        r@.len() == split_char(s@, sep).len(),
        r@.len() >= 1,
        forall|i: int| 0 <= i < r@.len() ==> r@[i]@ == split_char(s@, sep)[i],
{
    proof {
        lemma_split_char_len(s@, sep);
    }
    let n: usize = s.unicode_len();
    let mut out: Vec<String> = Vec::new();
    let mut cur: String = String::new();
    let mut i: usize = 0;
    proof {
        assert(split_char(s@.subrange(0, 0), sep) =~~= out@.map_values(|p: String| p@).push(
            cur@,
        ));
    }
    while i < n
        invariant
            n == s@.len(),
            0 <= i <= n,
            split_char(s@.subrange(0, i as int), sep) == out@.map_values(|p: String| p@).push(
                cur@,
            ),
        decreases n - i,
    {
        let c = s.get_char(i);
        let ghost pre = s@.subrange(0, i as int);
        let ghost post = s@.subrange(0, i + 1);
        proof {
            assert(post.drop_last() =~= pre);
            assert(post.last() == s@[i as int]);
            lemma_split_char_len(pre, sep);
        }
        if c == sep {
            out.push(cur);
            cur = String::new();
            proof {
                assert(split_char(post, sep) =~= out@.map_values(|p: String| p@).push(cur@));
            }
        } else {
            push_char(&mut cur, c);
            proof {
                let pieces = split_char(pre, sep);
                let mapped = out@.map_values(|p: String| p@);
                assert(cur@ =~= pieces.last().push(s@[i as int]));
                assert(split_char(post, sep) =~= mapped.push(cur@));
            }
        }
        i += 1;
    }
    proof {
        assert(s@.subrange(0, n as int) =~= s@);
    }
    out.push(cur);
    proof {
        assert(out@.map_values(|p: String| p@) =~= split_char(s@, sep));
        assert(forall|i: int|
            0 <= i < out@.len() ==> out@[i]@ == out@.map_values(|p: String| p@)[i]);
    }
    out
}

/// Joining pieces with a separator, matching `[T]::join`.
pub open spec fn join_with(pieces: Seq<Seq<char>>, sep: Seq<char>) -> Seq<char>
    decreases pieces.len(),
{
    if pieces.len() == 0 {
        Seq::empty()
    } else if pieces.len() == 1 {
        pieces[0]
    } else {
        join_with(pieces.drop_last(), sep) + sep + pieces.last()
    }
}

/// Joins pieces with a separator string.
pub fn join_strings(pieces: &Vec<String>, sep: &str) -> (r: String)
    ensures
        r@ == join_with(pieces@.map_values(|p: String| p@), sep@),
{
    let mut acc: String = String::new();
    let mut i: usize = 0;
    while i < pieces.len()
        invariant
            0 <= i <= pieces@.len(),
            acc@ == join_with(
                pieces@.subrange(0, i as int).map_values(|p: String| p@),
                sep@,
            ),
        decreases pieces@.len() - i,
    {
        if i > 0 {
            acc.append(sep);
        }
        acc.append(pieces[i].as_str());
        proof {
            let prev = pieces@.subrange(0, i as int).map_values(|p: String| p@);
            let now = pieces@.subrange(0, i + 1).map_values(|p: String| p@);
            assert(now.drop_last() =~= prev);
            assert(now.last() == pieces@[i as int]@);
            if i == 0 {
                assert(acc@ =~= join_with(now, sep@));
            } else {
                assert(acc@ =~= join_with(now, sep@));
            }
        }
        i += 1;
    }
    proof {
        assert(pieces@.subrange(0, pieces@.len() as int) =~= pieces@);
    }
    acc
}

/// The first `n` elements, or all of them if fewer.
pub fn take_strings(v: &Vec<String>, n: usize) -> (r: Vec<String>)
    ensures
        r@.len() == if n <= v@.len() {
            n as int
        } else {
            v@.len() as int
        },
        forall|i: int| 0 <= i < r@.len() ==> r@[i]@ == v@[i]@,
{
    let mut out: Vec<String> = Vec::new();
    let mut i: usize = 0;
    let lim: usize = if n <= v.len() {
        n
    } else {
        v.len()
    };
    while i < lim
        invariant
            lim <= v@.len(),
            0 <= i <= lim,
            out@.len() == i,
            forall|j: int| 0 <= j < i ==> out@[j]@ == v@[j]@,
        decreases lim - i,
    {
        out.push(v[i].clone());
        i += 1;
    }
    out
}

/// The elements from `from` (inclusive) to `to` (exclusive).
pub fn range_strings(v: &Vec<String>, from: usize, to: usize) -> (r: Vec<String>)
    requires
        from <= to <= v@.len(),
    ensures
        r@.len() == to - from,
        forall|i: int| 0 <= i < r@.len() ==> r@[i]@ == v@[from + i]@,
{
    let mut out: Vec<String> = Vec::new();
    let mut i: usize = from;
    while i < to
        invariant
            from <= i <= to <= v@.len(),
            out@.len() == i - from,
            forall|j: int| 0 <= j < out@.len() ==> out@[j]@ == v@[from + j]@,
        decreases to - i,
    {
        out.push(v[i].clone());
        i += 1;
    }
    out
}

/// The decimal digit for a value below ten.
pub open spec fn dec_digit(d: nat) -> char {
    if d == 0 {
        '0'
    } else if d == 1 {
        '1'
    } else if d == 2 {
        '2'
    } else if d == 3 {
        '3'
    } else if d == 4 {
        '4'
    } else if d == 5 {
        '5'
    } else if d == 6 {
        '6'
    } else if d == 7 {
        '7'
    } else if d == 8 {
        '8'
    } else {
        '9'
    }
}

/// The decimal numeral of `n`, most significant digit first.
pub open spec fn dec_str(n: nat) -> Seq<char>
    decreases n,
{
    if n < 10 {
        seq![dec_digit(n)]
    } else {
        dec_str(n / 10).push(dec_digit(n % 10))
    }
}

fn dec_digit_exec(d: u64) -> (c: char)
    requires
        d < 10,
    ensures
        c == dec_digit(d as nat),
{
    if d == 0 {
        '0'
    } else if d == 1 {
        '1'
    } else if d == 2 {
        '2'
    } else if d == 3 {
        '3'
    } else if d == 4 {
        '4'
    } else if d == 5 {
        '5'
    } else if d == 6 {
        '6'
    } else if d == 7 {
        '7'
    } else if d == 8 {
        '8'
    } else {
        '9'
    }
}

/// Renders an unsigned integer in decimal.
pub fn u64_to_string(n: u64) -> (r: String)
    ensures
        r@ == dec_str(n as nat),
{
    let mut digits: Vec<char> = Vec::new();
    let mut m: u64 = n;
    while m >= 10
        invariant
            dec_str(n as nat) =~= dec_str(m as nat) + digits@.reverse(),
        decreases m,
    {
        let d = dec_digit_exec(m % 10);
        let ghost before = digits@;
        digits.push(d);
        proof {
            assert(digits@.reverse() =~= seq![d] + before.reverse());
            assert(dec_str((m / 10) as nat) + digits@.reverse() =~= dec_str((m / 10) as nat).push(
                dec_digit((m % 10) as nat),
            ) + before.reverse());
        }
        m = m / 10;
    }
    let top = dec_digit_exec(m);
    let mut r = String::new();
    push_char(&mut r, top);
    proof {
        assert(dec_str(m as nat) =~= seq![dec_digit(m as nat)]);
        assert(r@ =~= seq![top]);
    }
    let mut i: usize = digits.len();
    while i > 0
        invariant
            i <= digits@.len(),
            r@ =~= dec_str(m as nat) + digits@.reverse().subrange(
                0,
                digits@.len() - i,
            ),
            dec_str(n as nat) =~= dec_str(m as nat) + digits@.reverse(),
        decreases i,
    {
        i -= 1;
        let c = digits[i];
        let ghost before = r@;
        push_char(&mut r, c);
        proof {
            let rev = digits@.reverse();
            assert(rev[digits@.len() - 1 - i] == digits@[i as int]);
            assert(r@ =~= before.push(c));
            assert(rev.subrange(0, digits@.len() - i) =~= rev.subrange(
                0,
                digits@.len() - i - 1,
            ).push(rev[digits@.len() - i - 1]));
            assert(r@ =~= dec_str(m as nat) + rev.subrange(0, digits@.len() - i));
        }
    }
    proof {
        assert(digits@.reverse().subrange(0, digits@.len() as int) =~= digits@.reverse());
    }
    r
}

} // verus!
