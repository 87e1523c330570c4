//! Text handling on strings as sequences of characters.

use vstd::prelude::*;
use vstd::utf8::{valid_utf8, decode_utf8};

verus! {

broadcast use vstd::string::group_string_axioms;

/// The characters of a string.
pub fn chars_of(s: &str) -> (v: Vec<char>)
    ensures
        v@ == s@,
{
    let mut v: Vec<char> = Vec::new();
    for c in it: s.chars()
        invariant
            it.seq() == s@,
            v@ == it.seq().take(it.index()),
    {
        assert(it.seq().take(it.index() + 1) == it.seq().take(it.index()).push(c));
        v.push(c);
    }
    v
}

/// Appends one character to a string: `String::push`.
#[verifier::external_body]
pub(crate) fn push_char(s: &mut String, c: char)
    ensures
        final(s)@ == old(s)@.push(c),
{
    s.push(c);
}

/// The string made of the given characters.
pub fn string_of(chars: &[char]) -> (s: String)
    ensures
        s@ == chars@,
{
    let mut s = String::new();
    let mut k: usize = 0;
    while k < chars.len()
        invariant
            k <= chars@.len(),
            s@ == chars@.take(k as int),
        decreases chars@.len() - k,
    {
        assert(chars@.take(k + 1) == chars@.take(k as int).push(chars@[k as int]));
        push_char(&mut s, chars[k]);
        k = k + 1;
    }
    assert(chars@.take(k as int) == chars@);
    s
}

/// A copy of a string.
pub fn copy_text(s: &str) -> (r: String)
    ensures
        r@ == s@,
{
    s.to_string()
}

/// `a` followed by `b`.
pub fn joined(a: &str, b: &str) -> (r: String)
    ensures
        r@ == a@ + b@,
{
    let mut r = a.to_string();
    r.append(b);
    r
}

/// The first `k` characters of `s`, or all of them when it is shorter.
pub fn prefix_chars(s: &str, k: usize) -> (r: String)
    ensures
        r@ == if k <= s@.len() { s@.take(k as int) } else { s@ },
{
    let cs = chars_of(s);
    let m = if k <= cs.len() { k } else { cs.len() };
    let mut out: Vec<char> = Vec::new();
    let mut j: usize = 0;
    while j < m
        invariant
            m <= cs@.len(),
            cs@ == s@,
            j <= m,
            out@ == cs@.take(j as int),
        decreases m - j,
    {
        assert(cs@.take(j + 1) == cs@.take(j as int).push(cs@[j as int]));
        out.push(cs[j]);
        j = j + 1;
    }
    proof {
        if k > s@.len() {
            assert(cs@.take(m as int) == cs@);
        }
    }
    string_of(&out)
}

/// Whether two strings hold the same characters.
pub fn same_text(a: &str, b: &str) -> (eq: bool)
    ensures
        eq == (a@ == b@),
{
    let ca = chars_of(a);
    let cb = chars_of(b);
    if ca.len() != cb.len() {
        assert(a@.len() != b@.len());
        return false;
    }
    let mut k: usize = 0;
    while k < ca.len()
        invariant
            ca@ == a@,
            cb@ == b@,
            ca@.len() == cb@.len(),
            k <= ca@.len(),
            forall|q: int| 0 <= q < k ==> ca@[q] == cb@[q],
        decreases ca@.len() - k,
    {
        if ca[k] != cb[k] {
            assert(a@[k as int] != b@[k as int]);
            return false;
        }
        k = k + 1;
    }
    assert(ca@ =~= cb@);
    true
}

/// `p` is a prefix of `s`.
pub open spec fn is_prefix_of(p: Seq<char>, s: Seq<char>) -> bool {
    p.len() <= s.len() && s.subrange(0, p.len() as int) == p
}

/// `needle` occurs in `hay` starting at position `i`.
pub open spec fn occurs_at(needle: Seq<char>, hay: Seq<char>, i: int) -> bool {
    0 <= i && i + needle.len() <= hay.len() && hay.subrange(i, i + needle.len()) == needle
}

/// `needle` occurs somewhere in `hay`.
pub open spec fn contains_text(hay: Seq<char>, needle: Seq<char>) -> bool {
    exists|i: int| occurs_at(needle, hay, i)
}

/// Whether `needle` occurs in `hay` at position `i`.
fn matches_at(hay: &Vec<char>, needle: &Vec<char>, i: usize) -> (m: bool)
    requires
        i + needle@.len() <= hay@.len(),
    ensures
        m == occurs_at(needle@, hay@, i as int),
{
    let hl = hay.len();
    let mut k: usize = 0;
    while k < needle.len()
        invariant
            hl == hay@.len(),
            i + needle@.len() <= hay@.len(),
            k <= needle@.len(),
            forall|q: int| 0 <= q < k ==> hay@[i + q] == needle@[q],
        decreases needle@.len() - k,
    {
        if hay[i + k] != needle[k] {
            assert(hay@.subrange(i as int, i + needle@.len())[k as int] != needle@[k as int]);
            return false;
        }
        k = k + 1;
    }
    assert(hay@.subrange(i as int, i + needle@.len()) =~= needle@);
    true
}

/// Whether `s` starts with `prefix`.
pub fn starts_with(s: &str, prefix: &str) -> (b: bool)
    ensures
        b == is_prefix_of(prefix@, s@),
{
    let cs = chars_of(s);
    let cp = chars_of(prefix);
    if cp.len() > cs.len() {
        return false;
    }
    matches_at(&cs, &cp, 0)
}

/// Whether `needle` occurs in `hay`.
pub fn contains(hay: &str, needle: &str) -> (b: bool)
    ensures
        b == contains_text(hay@, needle@),
{
    let ch = chars_of(hay);
    let cn = chars_of(needle);
    if cn.len() > ch.len() {
        assert forall|i: int| !occurs_at(needle@, hay@, i) by {}
        return false;
    }
    if cn.len() == 0 {
        assert(hay@.subrange(0, 0) =~= needle@);
        assert(occurs_at(needle@, hay@, 0));
        return true;
    }
    let last = ch.len() - cn.len();
    let mut i: usize = 0;
    while i <= last
        invariant
            last < usize::MAX,
            last + cn@.len() == ch@.len(),
            ch@ == hay@,
            cn@ == needle@,
            i <= last + 1,
            forall|q: int| 0 <= q < i ==> !occurs_at(needle@, hay@, q),
        decreases last + 1 - i,
    {
        if matches_at(&ch, &cn, i) {
            return true;
        }
        i = i + 1;
    }
    assert forall|q: int| !occurs_at(needle@, hay@, q) by {
        if 0 <= q < i {
        }
    }
    false
}

/// Whether the character `c` occurs in `s`.
pub fn has_char(s: &str, c: char) -> (b: bool)
    ensures
        b == s@.contains(c),
{
    let cs = chars_of(s);
    let mut k: usize = 0;
    while k < cs.len()
        invariant
            cs@ == s@,
            k <= cs@.len(),
            forall|q: int| 0 <= q < k ==> cs@[q] != c,
        decreases cs@.len() - k,
    {
        if cs[k] == c {
            return true;
        }
        k = k + 1;
    }
    false
}

/// What `str::to_lowercase` gives for a text: its lowercase form under the
/// Unicode case mapping.
pub uninterp spec fn lowercase(s: Seq<char>) -> Seq<char>;

/// The lowercase form of a text: `str::to_lowercase`.
#[verifier::external_body]
pub(crate) fn to_lowercase(s: &str) -> (r: String)
    ensures
        r@ == lowercase(s@),
{
    s.to_lowercase()
}

/// The text that a byte string encodes in UTF-8, if it is valid UTF-8:
/// `std::str::from_utf8`.
#[verifier::external_body]
pub(crate) fn text_from_utf8(bytes: &[u8]) -> (r: Option<String>)
    ensures
        r is Some <==> valid_utf8(bytes@),
        r matches Some(s) ==> s@ == decode_utf8(bytes@),
{
    std::str::from_utf8(bytes).ok().map(|s| s.to_string())
}

// ── Lines ─────────────────────────────────────────────────────────────

/// A line without the carriage return that ended it before its newline.
pub open spec fn strip_cr(line: Seq<char>) -> Seq<char> {
    if line.len() > 0 && line.last() == '\r' {
        line.drop_last()
    } else {
        line
    }
}

/// The finished lines and the current partial line after the first `k`
/// characters.
pub open spec fn scan_lines(s: Seq<char>, k: int) -> (Seq<Seq<char>>, Seq<char>)
    decreases k,
{
    if k <= 0 {
        (Seq::empty(), Seq::empty())
    } else {
        let prev = scan_lines(s, k - 1);
        if s[k - 1] == '\n' {
            (prev.0.push(strip_cr(prev.1)), Seq::empty())
        } else {
            (prev.0, prev.1.push(s[k - 1]))
        }
    }
}

/// The lines of a text, as `str::lines` gives them: split at each newline,
/// a carriage return before a newline dropped, and no empty line after a
/// final newline.
pub open spec fn text_lines(s: Seq<char>) -> Seq<Seq<char>> {
    let (done, cur) = scan_lines(s, s.len() as int);
    if cur.len() > 0 {
        done.push(cur)
    } else {
        done
    }
}

/// The views of a list of strings.
pub open spec fn texts_view(v: Seq<String>) -> Seq<Seq<char>> {
    v.map_values(|s: String| s@)
}

/// The line of `cur`, with a carriage return at its end dropped.
fn finish_line(cur: &Vec<char>) -> (line: String)
    ensures
        line@ == strip_cr(cur@),
{
    if cur.len() > 0 && cur[cur.len() - 1] == '\r' {
        let mut v: Vec<char> = Vec::new();
        let mut k: usize = 0;
        while k < cur.len() - 1
            invariant
                cur@.len() > 0,
                k <= cur@.len() - 1,
                v@ == cur@.take(k as int),
            decreases cur@.len() - 1 - k,
        {
            assert(cur@.take(k + 1) == cur@.take(k as int).push(cur@[k as int]));
            v.push(cur[k]);
            k = k + 1;
        }
        assert(cur@.take(k as int) =~= cur@.drop_last());
        string_of(&v)
    } else {
        string_of(cur)
    }
}

/// The lines of a text: `str::lines`.
pub fn split_lines(text: &str) -> (lines: Vec<String>)
    ensures
        texts_view(lines@) == text_lines(text@),
{
    let cs = chars_of(text);
    let mut done: Vec<String> = Vec::new();
    let mut cur: Vec<char> = Vec::new();
    let mut k: usize = 0;
    while k < cs.len()
        invariant
            cs@ == text@,
            k <= cs@.len(),
            texts_view(done@) == scan_lines(text@, k as int).0,
            cur@ == scan_lines(text@, k as int).1,
        decreases cs@.len() - k,
    {
        if cs[k] == '\n' {
            let line = finish_line(&cur);
            done.push(line);
            assert(texts_view(done@) =~= scan_lines(text@, k as int).0.push(strip_cr(scan_lines(text@, k as int).1)));
            cur = Vec::new();
        } else {
            cur.push(cs[k]);
        }
        k = k + 1;
    }
    if cur.len() > 0 {
        let line = string_of(&cur);
        done.push(line);
        assert(texts_view(done@) =~= scan_lines(text@, k as int).0.push(scan_lines(text@, k as int).1));
    }
    done
}

} // verus!
