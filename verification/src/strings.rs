//! Verified helpers for working with text as character sequences.
//!
//! Exec code here works on `Vec<char>`; the specifications speak about
//! `Seq<char>` views throughout.

use vstd::prelude::*;

verus! {

/// The Unicode `White_Space` property, the set that std's
/// `char::is_whitespace` documents: the five ASCII control whitespace
/// characters, SPACE, NEXT LINE, NO-BREAK SPACE, OGHAM SPACE MARK, the
/// EN QUAD through HAIR SPACE range, LINE SEPARATOR, PARAGRAPH SEPARATOR,
/// NARROW NO-BREAK SPACE, MEDIUM MATHEMATICAL SPACE, and IDEOGRAPHIC SPACE.
pub open spec fn char_is_whitespace(c: char) -> bool {
    ||| c == '\u{9}'
    ||| c == '\u{a}'
    ||| c == '\u{b}'
    ||| c == '\u{c}'
    ||| c == '\u{d}'
    ||| c == ' '
    ||| c == '\u{85}'
    ||| c == '\u{a0}'
    ||| c == '\u{1680}'
    ||| c == '\u{2000}'
    ||| c == '\u{2001}'
    ||| c == '\u{2002}'
    ||| c == '\u{2003}'
    ||| c == '\u{2004}'
    ||| c == '\u{2005}'
    ||| c == '\u{2006}'
    ||| c == '\u{2007}'
    ||| c == '\u{2008}'
    ||| c == '\u{2009}'
    ||| c == '\u{200a}'
    ||| c == '\u{2028}'
    ||| c == '\u{2029}'
    ||| c == '\u{202f}'
    ||| c == '\u{205f}'
    ||| c == '\u{3000}'
}

/// Whether the character has the Unicode `White_Space` property.
fn is_whitespace_char(c: char) -> (r: bool)
    ensures
        r == char_is_whitespace(c),
{
    match c {
        '\u{9}' | '\u{a}' | '\u{b}' | '\u{c}' | '\u{d}' | ' ' | '\u{85}' | '\u{a0}'
        | '\u{1680}' | '\u{2000}' | '\u{2001}' | '\u{2002}' | '\u{2003}' | '\u{2004}'
        | '\u{2005}' | '\u{2006}' | '\u{2007}' | '\u{2008}' | '\u{2009}' | '\u{200a}'
        | '\u{2028}' | '\u{2029}' | '\u{202f}' | '\u{205f}' | '\u{3000}' => true,
        _ => false,
    }
}

/// Relies on String::push: appends one character to the string.
#[verifier::external_body]
fn push_char(s: &mut String, c: char)
    ensures
        final(s)@ == old(s)@.push(c),
{
    s.push(c)
}

/// The characters of `s`, as a vector.
pub fn chars_of(s: &str) -> (v: Vec<char>)
    ensures
        v@ == s@,
{
    let n = s.unicode_len();
    let mut v: Vec<char> = Vec::new();
    let mut i: usize = 0;
    while i < n
        invariant
            i <= n,
            n == s@.len(),
            v@ == s@.take(i as int),
        decreases n - i,
    {
        let c = s.get_char(i);
        v.push(c);
        proof {
            assert(v@ =~= s@.take(i + 1));
        }
        i = i + 1;
    }
    proof {
        assert(s@.take(n as int) =~= s@);
    }
    v
}

/// A string holding the characters `v[from..to]`.
pub fn string_of_range(v: &Vec<char>, from: usize, to: usize) -> (s: String)
    requires
        from <= to <= v@.len(),
    ensures
        s@ == v@.subrange(from as int, to as int),
{
    let mut s = String::new();
    let mut i: usize = from;
    while i < to
        invariant
            from <= i <= to <= v@.len(),
            s@ == v@.subrange(from as int, i as int),
        decreases to - i,
    {
        push_char(&mut s, v[i]);
        proof {
            assert(s@ =~= v@.subrange(from as int, i + 1));
        }
        i = i + 1;
    }
    s
}

/// A string holding exactly the characters of `v`.
pub fn string_of_chars(v: &Vec<char>) -> (s: String)
    ensures
        s@ == v@,
{
    let n = v.len();
    let s = string_of_range(v, 0, n);
    proof {
        assert(v@.subrange(0, n as int) =~= v@);
    }
    s
}

/// The characters `v[from..]`, as a fresh vector.
pub fn chars_from(v: &Vec<char>, from: usize) -> (out: Vec<char>)
    requires
        from <= v@.len(),
    ensures
        out@ == v@.skip(from as int),
{
    let n = v.len();
    let mut out: Vec<char> = Vec::new();
    let mut i: usize = from;
    while i < n
        invariant
            from <= i <= n,
            n == v@.len(),
            out@ == v@.subrange(from as int, i as int),
        decreases n - i,
    {
        out.push(v[i]);
        proof {
            assert(out@ =~= v@.subrange(from as int, i + 1));
        }
        i = i + 1;
    }
    proof {
        assert(v@.subrange(from as int, n as int) =~= v@.skip(from as int));
    }
    out
}

/// The decimal digit character for a value below ten.
pub open spec fn digit_char(d: nat) -> char {
    if d == 0 {
        '0'
    } else if d == 1 {
        '1'
    } else if d == 2 {
        '2'
    } else if d == 3 {
        '3'
    } else if d == 4 {
        '4'
    } else if d == 5 {
        '5'
    } else if d == 6 {
        '6'
    } else if d == 7 {
        '7'
    } else if d == 8 {
        '8'
    } else {
        '9'
    }
}

/// The usual decimal notation of `n`, most significant digit first and
/// without leading zeros.
pub open spec fn spec_digits(n: nat) -> Seq<char>
    decreases n,
{
    if n < 10 {
        seq![digit_char(n)]
    } else {
        spec_digits(n / 10) + seq![digit_char(n % 10)]
    }
}

/// The digit character for `d`.
fn exec_digit_char(d: usize) -> (c: char)
    requires
        d < 10,
    ensures
        c == digit_char(d as nat),
{
    if d == 0 {
        '0'
    } else if d == 1 {
        '1'
    } else if d == 2 {
        '2'
    } else if d == 3 {
        '3'
    } else if d == 4 {
        '4'
    } else if d == 5 {
        '5'
    } else if d == 6 {
        '6'
    } else if d == 7 {
        '7'
    } else if d == 8 {
        '8'
    } else {
        '9'
    }
}

/// `n` in decimal notation.
pub fn usize_to_string(n: usize) -> (s: String)
    ensures
        s@ == spec_digits(n as nat),
{
    let mut digits: Vec<char> = Vec::new();
    let mut m = n;
    if m == 0 {
        digits.push(exec_digit_char(0));
        return string_of_chars(&digits);
    }
    while m > 0
        invariant
            m > 0 ==> spec_digits(n as nat) == spec_digits(m as nat) + digits@,
            m == 0 ==> spec_digits(n as nat) == digits@,
        decreases m,
    {
        let ghost m0 = m as nat;
        let ghost digits0 = digits@;
        let d = m % 10;
        digits.insert(0, exec_digit_char(d));
        m = m / 10;
        proof {
            assert(digits@ =~= seq![digit_char(d as nat)] + digits0);
            if m0 >= 10 {
                assert(spec_digits(m0) == spec_digits(m0 / 10) + seq![digit_char(m0 % 10)]);
                assert(spec_digits(m0 / 10) + (seq![digit_char(m0 % 10)] + digits0)
                    =~= spec_digits(m0) + digits0);
            } else {
                assert(spec_digits(m0) == seq![digit_char(m0)]);
                assert(seq![digit_char(m0)] + digits0 =~= spec_digits(m0) + digits0);
            }
        }
    }
    string_of_chars(&digits)
}

/// `p` is a prefix of `s`.
pub open spec fn has_prefix(s: Seq<char>, p: Seq<char>) -> bool {
    p.len() <= s.len() && s.take(p.len() as int) == p
}

/// Whether the characters `v[from..]` start with the literal `p`.
pub fn range_starts_with(v: &Vec<char>, from: usize, p: &str) -> (r: bool)
    requires
        from <= v@.len(),
    ensures
        r == has_prefix(v@.skip(from as int), p@),
{
    let plen = p.unicode_len();
    if plen > v.len() - from {
        return false;
    }
    let mut i: usize = 0;
    while i < plen
        invariant
            i <= plen,
            plen == p@.len(),
            from <= v@.len(),
            v@.len() <= usize::MAX,
            plen <= v@.len() - from,
            forall|j: int| 0 <= j < i ==> v@[from + j] == p@[j],
        decreases plen - i,
    {
        if v[from + i] != p.get_char(i) {
            proof {
                assert(v@.skip(from as int)[i as int] != p@[i as int]);
                assert(!has_prefix(v@.skip(from as int), p@));
            }
            return false;
        }
        i = i + 1;
    }
    proof {
        assert(v@.skip(from as int).take(plen as int) =~= p@);
    }
    true
}

/// Whether two strings hold the same characters.
pub fn str_eq(a: &str, b: &str) -> (r: bool)
    ensures
        r == (a@ == b@),
{
    let na = a.unicode_len();
    let nb = b.unicode_len();
    if na != nb {
        proof {
            if a@ == b@ {
                assert(a@.len() == b@.len());
            }
        }
        return false;
    }
    let mut i: usize = 0;
    while i < na
        invariant
            i <= na,
            na == a@.len(),
            na == b@.len(),
            forall|j: int| 0 <= j < i ==> a@[j] == b@[j],
        decreases na - i,
    {
        if a.get_char(i) != b.get_char(i) {
            proof {
                assert(a@[i as int] != b@[i as int]);
            }
            return false;
        }
        i = i + 1;
    }
    proof {
        assert(a@ =~= b@);
    }
    true
}

/// Whether `a` holds exactly `prefix` followed by `b`.
pub fn str_eq_concat(a: &str, prefix: &str, b: &str) -> (r: bool)
    ensures
        r == (a@ == prefix@ + b@),
{
    let na = a.unicode_len();
    let np = prefix.unicode_len();
    let nb = b.unicode_len();
    proof {
        if a@ == prefix@ + b@ {
            assert(a@.len() == prefix@.len() + b@.len());
        }
    }
    if na < np {
        return false;
    }
    if na - np != nb {
        return false;
    }
    let mut i: usize = 0;
    while i < np
        invariant
            i <= np,
            na == a@.len(),
            np == prefix@.len(),
            nb == b@.len(),
            na == np + nb,
            forall|j: int| 0 <= j < i ==> a@[j] == prefix@[j],
        decreases np - i,
    {
        if a.get_char(i) != prefix.get_char(i) {
            proof {
                assert((prefix@ + b@)[i as int] == prefix@[i as int]);
            }
            return false;
        }
        i = i + 1;
    }
    let mut j: usize = 0;
    while j < nb
        invariant
            j <= nb,
            na == a@.len(),
            np == prefix@.len(),
            nb == b@.len(),
            na == np + nb,
            forall|k: int| 0 <= k < np ==> a@[k] == prefix@[k],
            forall|k: int| 0 <= k < j ==> a@[np + k] == b@[k],
        decreases nb - j,
    {
        if a.get_char(np + j) != b.get_char(j) {
            proof {
                assert((prefix@ + b@)[np + j] == b@[j as int]);
            }
            return false;
        }
        j = j + 1;
    }
    proof {
        assert(a@ =~= prefix@ + b@);
    }
    true
}

/// The longest prefix of `s` before the first occurrence of `stop`.
pub open spec fn until_char(s: Seq<char>, stop: char) -> Seq<char>
    decreases s.len(),
{
    if s.len() == 0 {
        s
    } else if s[0] == stop {
        Seq::empty()
    } else {
        seq![s[0]] + until_char(s.drop_first(), stop)
    }
}

/// Scanning up to the first occurrence computes `until_char`.
proof fn lemma_until_char_range(s: Seq<char>, stop: char, r: int)
    requires
        0 <= r <= s.len(),
        forall|j: int| 0 <= j < r ==> s[j] != stop,
        r < s.len() ==> s[r] == stop,
    ensures
        until_char(s, stop) == s.take(r),
    decreases r,
{
    if s.len() == 0 {
        assert(s.take(0) =~= s);
    } else if r == 0 {
        assert(s.take(0) =~= Seq::<char>::empty());
    } else {
        lemma_until_char_range(s.drop_first(), stop, r - 1);
        assert(seq![s[0]] + s.drop_first().take(r - 1) =~= s.take(r));
    }
}

/// The characters of `v` up to (but not including) the first `stop`.
pub fn prefix_until(v: &Vec<char>, stop: char) -> (out: Vec<char>)
    ensures
        out@ == until_char(v@, stop),
{
    let n = v.len();
    let mut out: Vec<char> = Vec::new();
    let mut i: usize = 0;
    while i < n
        invariant
            i <= n,
            n == v@.len(),
            out@ == v@.subrange(0, i as int),
            forall|k: int| 0 <= k < i ==> v@[k] != stop,
        decreases n - i,
    {
        if v[i] == stop {
            proof {
                lemma_until_char_range(v@, stop, i as int);
                assert(v@.subrange(0, i as int) =~= v@.take(i as int));
            }
            return out;
        }
        out.push(v[i]);
        proof {
            assert(out@ =~= v@.subrange(0, i + 1));
        }
        i = i + 1;
    }
    proof {
        lemma_until_char_range(v@, stop, n as int);
        assert(v@.subrange(0, n as int) =~= v@.take(n as int));
    }
    out
}

/// The index of the first non-whitespace character of `v[from..to]`, or `to`
/// if the whole range is whitespace.
fn skip_whitespace_front(v: &Vec<char>, from: usize, to: usize) -> (r: usize)
    requires
        from <= to <= v@.len(),
    ensures
        from <= r <= to,
        forall|j: int| from <= j < r ==> char_is_whitespace(v@[j]),
        r < to ==> !char_is_whitespace(v@[r as int]),
{
    let mut i: usize = from;
    while i < to
        invariant
            from <= i <= to <= v@.len(),
            forall|j: int| from <= j < i ==> char_is_whitespace(v@[j]),
        decreases to - i,
    {
        if !is_whitespace_char(v[i]) {
            return i;
        }
        i = i + 1;
    }
    i
}

/// One past the index of the last non-whitespace character of `v[from..to]`,
/// or `from` if the whole range is whitespace.
fn skip_whitespace_back(v: &Vec<char>, from: usize, to: usize) -> (r: usize)
    requires
        from <= to <= v@.len(),
    ensures
        from <= r <= to,
        forall|j: int| r <= j < to ==> char_is_whitespace(v@[j]),
        r > from ==> !char_is_whitespace(v@[r - 1]),
{
    let mut i: usize = to;
    while i > from
        invariant
            from <= i <= to <= v@.len(),
            forall|j: int| i <= j < to ==> char_is_whitespace(v@[j]),
        decreases i,
    {
        if !is_whitespace_char(v[i - 1]) {
            return i;
        }
        i = i - 1;
    }
    i
}

/// `s` with leading whitespace removed.
pub open spec fn trim_front(s: Seq<char>) -> Seq<char>
    decreases s.len(),
{
    if s.len() > 0 && char_is_whitespace(s[0]) {
        trim_front(s.drop_first())
    } else {
        s
    }
}

/// `s` with trailing whitespace removed.
pub open spec fn trim_back(s: Seq<char>) -> Seq<char>
    decreases s.len(),
{
    if s.len() > 0 && char_is_whitespace(s.last()) {
        trim_back(s.drop_last())
    } else {
        s
    }
}

/// `s` with both leading and trailing whitespace removed.
pub open spec fn trimmed(s: Seq<char>) -> Seq<char> {
    trim_back(trim_front(s))
}

/// Dropping a whitespace prefix step by step computes `trim_front`.
proof fn lemma_trim_front_range(s: Seq<char>, r: int)
    requires
        0 <= r <= s.len(),
        forall|j: int| 0 <= j < r ==> char_is_whitespace(s[j]),
        r < s.len() ==> !char_is_whitespace(s[r]),
    ensures
        trim_front(s) == s.skip(r),
    decreases r,
{
    if r == 0 {
        if s.len() > 0 {
            assert(!char_is_whitespace(s[0]));
        }
        assert(s.skip(0) =~= s);
    } else {
        assert(char_is_whitespace(s[0]));
        assert(s.len() > 0);
        lemma_trim_front_range(s.drop_first(), r - 1);
        assert(s.drop_first().skip(r - 1) =~= s.skip(r));
    }
}

/// Dropping a whitespace suffix step by step computes `trim_back`.
proof fn lemma_trim_back_range(s: Seq<char>, r: int)
    requires
        0 <= r <= s.len(),
        forall|j: int| r <= j < s.len() ==> char_is_whitespace(s[j]),
        r > 0 ==> !char_is_whitespace(s[r - 1]),
    ensures
        trim_back(s) == s.take(r),
    decreases s.len(),
{
    if r == s.len() {
        if s.len() > 0 {
            assert(!char_is_whitespace(s.last()));
        }
        assert(s.take(r) =~= s);
    } else {
        assert(char_is_whitespace(s.last()));
        lemma_trim_back_range(s.drop_last(), r);
        assert(s.drop_last().take(r) =~= s.take(r));
    }
}

/// The characters of `v`, trimmed of leading and trailing whitespace.
pub fn trimmed_chars(v: &Vec<char>) -> (t: Vec<char>)
    ensures
        t@ == trimmed(v@),
{
    let n = v.len();
    let lo = skip_whitespace_front(v, 0, n);
    let hi = skip_whitespace_back(v, lo, n);
    let mut t: Vec<char> = Vec::new();
    let mut i: usize = lo;
    while i < hi
        invariant
            lo <= i <= hi <= v@.len(),
            t@ == v@.subrange(lo as int, i as int),
        decreases hi - i,
    {
        t.push(v[i]);
        proof {
            assert(t@ =~= v@.subrange(lo as int, i + 1));
        }
        i = i + 1;
    }
    proof {
        lemma_trim_front_range(v@, lo as int);
        if hi == lo {
            assert(forall|j: int| lo <= j < v@.len() ==> char_is_whitespace(v@[j]));
            lemma_trim_back_range(v@.skip(lo as int), 0);
        } else {
            assert(!char_is_whitespace(v@[hi - 1]));
            lemma_trim_back_range(v@.skip(lo as int), hi - lo);
        }
        assert(v@.skip(lo as int).take(hi - lo) =~= v@.subrange(lo as int, hi as int));
        assert(t@ =~= v@.subrange(lo as int, hi as int));
    }
    t
}

/// The lines of `s`: the maximal segments between newline characters.  Like
/// splitting on `'\n'`, this yields one segment more than there are
/// newlines; a trailing newline therefore yields a final empty segment.
pub open spec fn spec_split_lines(s: Seq<char>) -> Seq<Seq<char>>
    decreases s.len(),
{
    if s.len() == 0 {
        seq![Seq::empty()]
    } else if s[0] == '\n' {
        seq![Seq::<char>::empty()] + spec_split_lines(s.drop_first())
    } else {
        let rest = spec_split_lines(s.drop_first());
        seq![seq![s[0]] + rest[0]] + rest.drop_first()
    }
}

/// Splitting always yields at least one segment.
pub proof fn lemma_split_lines_len(s: Seq<char>)
    ensures
        spec_split_lines(s).len() >= 1,
    decreases s.len(),
{
    if s.len() > 0 {
        lemma_split_lines_len(s.drop_first());
    }
}

/// The lines of `v`, split on the newline character.
pub fn split_lines(v: &Vec<char>) -> (lines: Vec<Vec<char>>)
    ensures
        lines@.map_values(|l: Vec<char>| l@) == spec_split_lines(v@),
{
    let n = v.len();
    let mut lines: Vec<Vec<char>> = Vec::new();
    let mut cur: Vec<char> = Vec::new();
    let mut i: usize = 0;
    proof {
        lemma_split_lines_len(v@);
        assert(v@.skip(0) =~= v@);
        assert(prepend_head(Seq::<char>::empty(), spec_split_lines(v@)) =~~= spec_split_lines(v@));
        assert(lines@.map_values(|l: Vec<char>| l@) + spec_split_lines(v@) =~~= spec_split_lines(
            v@,
        ));
    }
    while i < n
        invariant
            i <= n,
            n == v@.len(),
            spec_split_lines(v@) == lines@.map_values(|l: Vec<char>| l@) + prepend_head(
                cur@,
                spec_split_lines(v@.skip(i as int)),
            ),
        decreases n - i,
    {
        proof {
            lemma_split_lines_len(v@.skip(i + 1));
            assert(v@.skip(i as int).drop_first() =~= v@.skip(i + 1));
        }
        let ghost prev_lines = lines@.map_values(|l: Vec<char>| l@);
        let ghost prev_cur = cur@;
        let ghost rest = spec_split_lines(v@.skip(i + 1));
        let ghost old_split = spec_split_lines(v@.skip(i as int));
        let c = v[i];
        if c == '\n' {
            proof {
                assert(old_split == seq![Seq::<char>::empty()] + rest);
                assert(prepend_head(prev_cur, old_split) =~~= seq![prev_cur] + rest);
                assert(prepend_head(Seq::<char>::empty(), rest) =~~= rest);
            }
            lines.push(cur);
            cur = Vec::new();
            proof {
                assert(lines@.map_values(|l: Vec<char>| l@) =~~= prev_lines + seq![prev_cur]);
                assert((prev_lines + seq![prev_cur]) + rest =~~= prev_lines + (seq![prev_cur]
                    + rest));
                assert(spec_split_lines(v@) == lines@.map_values(|l: Vec<char>| l@) + prepend_head(
                    cur@,
                    rest,
                ));
            }
        } else {
            proof {
                assert(old_split == seq![seq![v@[i as int]] + rest[0]] + rest.drop_first());
            }
            cur.push(c);
            proof {
                assert(prepend_head(prev_cur, old_split) =~~= prepend_head(cur@, rest));
            }
        }
        i = i + 1;
    }
    proof {
        assert(v@.skip(n as int) =~= Seq::<char>::empty());
        assert(spec_split_lines(v@.skip(n as int)) == seq![Seq::<char>::empty()]);
    }
    let ghost done = lines@.map_values(|l: Vec<char>| l@);
    let ghost last_cur = cur@;
    lines.push(cur);
    proof {
        assert(prepend_head(last_cur, seq![Seq::<char>::empty()]) =~~= seq![last_cur]);
        assert(lines@.map_values(|l: Vec<char>| l@) =~~= done + seq![last_cur]);
    }
    lines
}

/// `ss` with `c` prepended to its first segment.
pub open spec fn prepend_head(c: Seq<char>, ss: Seq<Seq<char>>) -> Seq<Seq<char>> {
    seq![c + ss[0]] + ss.drop_first()
}

} // verus!
