//! Character-level text helpers used by the parsers.
//!
//! All parsing in this crate works on `Vec<char>` copies of the input lines. The spec functions
//! here state what the corresponding `str` operations of the standard library compute
//! (whitespace trimming, splitting at a delimiter, prefix tests, integer parsing and decimal
//! formatting), and the executable functions are proved against them.
use vstd::prelude::*;

verus! {

// ------------------------------------------------------------------------------------------
// Character classes
// ------------------------------------------------------------------------------------------

/// `char::is_whitespace`: the Unicode `White_Space` property.
pub open spec fn is_ws(c: char) -> bool {
    let u = c as u32;
    ||| 0x09 <= u <= 0x0D
    ||| u == 0x20
    ||| u == 0x85
    ||| u == 0xA0
    ||| u == 0x1680
    ||| 0x2000 <= u <= 0x200A
    ||| u == 0x2028
    ||| u == 0x2029
    ||| u == 0x202F
    ||| u == 0x205F
    ||| u == 0x3000
}

/// `char::is_ascii_whitespace`: space, tab, line feed, form feed and carriage return.
pub open spec fn is_ascii_ws(c: char) -> bool {
    c == ' ' || c == '\t' || c == '\n' || c == '\x0C' || c == '\r'
}

/// `char::is_ascii_digit`
pub open spec fn is_digit(c: char) -> bool {
    '0' <= c && c <= '9'
}

pub open spec fn digit_value(c: char) -> nat {
    (c as u32 - '0' as u32) as nat
}

pub fn is_ws_exec(c: char) -> (r: bool)
    ensures
        r == is_ws(c),
{
    let u = c as u32;
    (0x09 <= u && u <= 0x0D) || u == 0x20 || u == 0x85 || u == 0xA0 || u == 0x1680 || (0x2000
        <= u && u <= 0x200A) || u == 0x2028 || u == 0x2029 || u == 0x202F || u == 0x205F || u
        == 0x3000
}

pub fn is_ascii_ws_exec(c: char) -> (r: bool)
    ensures
        r == is_ascii_ws(c),
{
    c == ' ' || c == '\t' || c == '\n' || c == '\x0C' || c == '\r'
}

pub fn is_digit_exec(c: char) -> (r: bool)
    ensures
        r == is_digit(c),
{
    '0' <= c && c <= '9'
}

// ------------------------------------------------------------------------------------------
// Conversions between `str`, `String` and `Vec<char>`
// ------------------------------------------------------------------------------------------

/// The characters of a string slice.
pub fn to_chars(s: &str) -> (v: Vec<char>)
    ensures
        v@ == s@,
{
    let mut v: Vec<char> = Vec::new();
    for c in it: s.chars()
        invariant
            v@ == it.seq().take(it.index() as int),
            it.seq() == s@,
    {
        v.push(c);
    }
    v
}

/// `String::push`
#[verifier::external_body]
pub(crate) fn push_char(s: &mut String, c: char)
    ensures
        final(s)@ == old(s)@.push(c),
{
    s.push(c);
}

/// A `String` holding the characters of `v`.
pub fn from_chars(v: &Vec<char>) -> (s: String)
    ensures
        s@ == v@,
{
    let mut s = String::new();
    let mut i: usize = 0;
    while i < v.len()
        invariant
            0 <= i <= v.len(),
            s@ == v@.take(i as int),
        decreases v.len() - i,
    {
        push_char(&mut s, v[i]);
        assert(v@.take(i + 1) =~= v@.take(i as int).push(v@[i as int]));
        i += 1;
    }
    assert(v@.take(v.len() as int) =~= v@);
    s
}

/// A `String` holding `s`.
pub fn owned(s: &str) -> (r: String)
    ensures
        r@ == s@,
{
    s.to_owned()
}

/// Append the characters of `tail` to `v`.
pub fn append_str(v: &mut Vec<char>, tail: &str)
    ensures
        final(v)@ == old(v)@ + tail@,
{
    let t = to_chars(tail);
    append_chars(v, &t);
}

/// Append the characters of `tail` to `v`.
pub fn append_chars(v: &mut Vec<char>, tail: &Vec<char>)
    ensures
        final(v)@ == old(v)@ + tail@,
{
    let ghost start = v@;
    let mut i: usize = 0;
    while i < tail.len()
        invariant
            0 <= i <= tail.len(),
            v@ == start + tail@.take(i as int),
        decreases tail.len() - i,
    {
        v.push(tail[i]);
        assert(tail@.take(i + 1) =~= tail@.take(i as int).push(tail@[i as int]));
        i += 1;
    }
    assert(tail@.take(tail.len() as int) =~= tail@);
}

/// The characters `v[lo..hi]`.
pub fn sub_chars(v: &Vec<char>, lo: usize, hi: usize) -> (r: Vec<char>)
    requires
        lo <= hi <= v.len(),
    ensures
        r@ == v@.subrange(lo as int, hi as int),
{
    let mut r: Vec<char> = Vec::new();
    let mut i: usize = lo;
    while i < hi
        invariant
            lo <= i <= hi <= v.len(),
            r@ == v@.subrange(lo as int, i as int),
        decreases hi - i,
    {
        r.push(v[i]);
        assert(v@.subrange(lo as int, i + 1) =~= v@.subrange(lo as int, i as int).push(
            v@[i as int],
        ));
        i += 1;
    }
    r
}

/// Equality of two character sequences.
pub fn chars_eq(a: &Vec<char>, b: &Vec<char>) -> (r: bool)
    ensures
        r == (a@ == b@),
{
    if a.len() != b.len() {
        return false;
    }
    let mut i: usize = 0;
    while i < a.len()
        invariant
            a.len() == b.len(),
            0 <= i <= a.len(),
            forall|j: int| 0 <= j < i ==> a@[j] == b@[j],
        decreases a.len() - i,
    {
        if a[i] != b[i] {
            return false;
        }
        i += 1;
    }
    assert(a@ =~= b@);
    true
}

/// Equality of a character sequence and a string slice.
pub fn eq_str(a: &Vec<char>, b: &str) -> (r: bool)
    ensures
        r == (a@ == b@),
{
    let bv = to_chars(b);
    chars_eq(a, &bv)
}

// ------------------------------------------------------------------------------------------
// Trimming
// ------------------------------------------------------------------------------------------

/// `str::trim_start`
pub open spec fn trim_start(s: Seq<char>) -> Seq<char>
    decreases s.len(),
{
    if s.len() > 0 && is_ws(s[0]) {
        trim_start(s.drop_first())
    } else {
        s
    }
}

/// `str::trim_end`
pub open spec fn trim_end(s: Seq<char>) -> Seq<char>
    decreases s.len(),
{
    if s.len() > 0 && is_ws(s.last()) {
        trim_end(s.drop_last())
    } else {
        s
    }
}

/// `str::trim`
pub open spec fn trim(s: Seq<char>) -> Seq<char> {
    trim_end(trim_start(s))
}

proof fn lemma_trim_start_skip(s: Seq<char>, i: int)
    requires
        0 <= i <= s.len(),
        forall|j: int| 0 <= j < i ==> is_ws(s[j]),
    ensures
        trim_start(s) == trim_start(s.skip(i)),
    decreases i,
{
    if i > 0 {
        assert(s.skip(1) =~= s.drop_first());
        lemma_trim_start_skip(s.drop_first(), i - 1);
        assert(s.drop_first().skip(i - 1) =~= s.skip(i));
    } else {
        assert(s.skip(0) =~= s);
    }
}

proof fn lemma_trim_end_take(s: Seq<char>, i: int)
    requires
        0 <= i <= s.len(),
        forall|j: int| i <= j < s.len() ==> is_ws(s[j]),
    ensures
        trim_end(s) == trim_end(s.take(i)),
    decreases s.len() - i,
{
    if i < s.len() {
        assert(s.drop_last().take(i) =~= s.take(i));
        lemma_trim_end_take(s.drop_last(), i);
    } else {
        assert(s.take(i) =~= s);
    }
}

/// The index of the first non-whitespace character (or the length).
pub fn trim_start_index(v: &Vec<char>) -> (i: usize)
    ensures
        i <= v.len(),
        trim_start(v@) == v@.skip(i as int),
{
    let mut i: usize = 0;
    while i < v.len() && is_ws_exec(v[i])
        invariant
            0 <= i <= v.len(),
            forall|j: int| 0 <= j < i ==> is_ws(v@[j]),
        decreases v.len() - i,
    {
        i += 1;
    }
    proof {
        lemma_trim_start_skip(v@, i as int);
        let t = v@.skip(i as int);
        if t.len() > 0 {
            assert(t[0] == v@[i as int]);
        }
    }
    i
}

/// `str::trim_start`
pub fn trim_start_chars(v: &Vec<char>) -> (r: Vec<char>)
    ensures
        r@ == trim_start(v@),
{
    let i = trim_start_index(v);
    let r = sub_chars(v, i, v.len());
    assert(r@ =~= v@.skip(i as int));
    r
}

/// `str::trim`
pub fn trim_chars(v: &Vec<char>) -> (r: Vec<char>)
    ensures
        r@ == trim(v@),
{
    let t = trim_start_chars(v);
    let mut j: usize = t.len();
    while j > 0 && is_ws_exec(t[j - 1])
        invariant
            0 <= j <= t.len(),
            forall|k: int| j <= k < t.len() ==> is_ws(t@[k]),
        decreases j,
    {
        j -= 1;
    }
    proof {
        lemma_trim_end_take(t@, j as int);
        let u = t@.take(j as int);
        if u.len() > 0 {
            assert(u.last() == t@[j - 1]);
        }
    }
    let r = sub_chars(&t, 0, j);
    assert(r@ =~= t@.take(j as int));
    r
}

// ------------------------------------------------------------------------------------------
// Searching
// ------------------------------------------------------------------------------------------

/// The index of the first occurrence of `c` in `s`.
pub open spec fn find_char(s: Seq<char>, c: char) -> Option<int> {
    if exists|i: int| 0 <= i < s.len() && s[i] == c {
        Some(choose|i: int| 0 <= i < s.len() && s[i] == c && forall|j: int| 0 <= j < i ==> s[j] != c)
    } else {
        None
    }
}

/// The index of the last occurrence of `c` in `s`.
pub open spec fn rfind_char(s: Seq<char>, c: char) -> Option<int> {
    if exists|i: int| 0 <= i < s.len() && s[i] == c {
        Some(
            choose|i: int|
                0 <= i < s.len() && s[i] == c && forall|j: int| i < j < s.len() ==> s[j] != c,
        )
    } else {
        None
    }
}

pub fn find_char_exec(v: &Vec<char>, c: char) -> (r: Option<usize>)
    ensures
        r matches Some(i) ==> find_char(v@, c) == Some(i as int) && i < v.len(),
        r is None ==> find_char(v@, c) is None,
{
    let mut i: usize = 0;
    while i < v.len()
        invariant
            0 <= i <= v.len(),
            forall|j: int| 0 <= j < i ==> v@[j] != c,
        decreases v.len() - i,
    {
        if v[i] == c {
            proof {
                let k = choose|k: int|
                    0 <= k < v@.len() && v@[k] == c && forall|j: int| 0 <= j < k ==> v@[j] != c;
                assert(0 <= i < v@.len() && v@[i as int] == c && forall|j: int|
                    0 <= j < i ==> v@[j] != c);
                if k < i {
                } else if k > i {
                    assert(v@[i as int] != c);
                }
            }
            return Some(i);
        }
        i += 1;
    }
    None
}

pub fn rfind_char_exec(v: &Vec<char>, c: char) -> (r: Option<usize>)
    ensures
        r matches Some(i) ==> rfind_char(v@, c) == Some(i as int) && i < v.len(),
        r is None ==> rfind_char(v@, c) is None,
{
    let mut i: usize = v.len();
    while i > 0
        invariant
            0 <= i <= v.len(),
            forall|j: int| i <= j < v.len() ==> v@[j] != c,
        decreases i,
    {
        if v[i - 1] == c {
            proof {
                let k = choose|k: int|
                    0 <= k < v@.len() && v@[k] == c && forall|j: int|
                        k < j < v@.len() ==> v@[j] != c;
                assert(0 <= i - 1 < v@.len() && v@[i - 1] == c && forall|j: int|
                    i - 1 < j < v@.len() ==> v@[j] != c);
                if k < i - 1 {
                    assert(v@[i - 1] != c);
                } else if k > i - 1 {
                }
            }
            return Some(i - 1);
        }
        i -= 1;
    }
    None
}

/// `str::split_once` with a character delimiter.
pub open spec fn split_once(s: Seq<char>, c: char) -> Option<(Seq<char>, Seq<char>)> {
    match find_char(s, c) {
        Some(i) => Some((s.take(i), s.skip(i + 1))),
        None => None,
    }
}

/// `str::rsplit_once` with a character delimiter.
pub open spec fn rsplit_once(s: Seq<char>, c: char) -> Option<(Seq<char>, Seq<char>)> {
    match rfind_char(s, c) {
        Some(i) => Some((s.take(i), s.skip(i + 1))),
        None => None,
    }
}

pub fn split_once_exec(v: &Vec<char>, c: char) -> (r: Option<(Vec<char>, Vec<char>)>)
    ensures
        r matches Some((a, b)) ==> split_once(v@, c) == Some((a@, b@)),
        r is None ==> split_once(v@, c) is None,
{
    match find_char_exec(v, c) {
        Some(i) => {
            let a = sub_chars(v, 0, i);
            let b = sub_chars(v, i + 1, v.len());
            assert(a@ =~= v@.take(i as int));
            assert(b@ =~= v@.skip(i + 1));
            Some((a, b))
        },
        None => None,
    }
}

pub fn rsplit_once_exec(v: &Vec<char>, c: char) -> (r: Option<(Vec<char>, Vec<char>)>)
    ensures
        r matches Some((a, b)) ==> rsplit_once(v@, c) == Some((a@, b@)),
        r is None ==> rsplit_once(v@, c) is None,
{
    match rfind_char_exec(v, c) {
        Some(i) => {
            let a = sub_chars(v, 0, i);
            let b = sub_chars(v, i + 1, v.len());
            assert(a@ =~= v@.take(i as int));
            assert(b@ =~= v@.skip(i + 1));
            Some((a, b))
        },
        None => None,
    }
}

/// `str::starts_with`
pub fn starts_with(v: &Vec<char>, p: &str) -> (r: bool)
    ensures
        r == p@.is_prefix_of(v@),
{
    let pv = to_chars(p);
    starts_with_chars(v, &pv)
}

pub fn starts_with_chars(v: &Vec<char>, p: &Vec<char>) -> (r: bool)
    ensures
        r == p@.is_prefix_of(v@),
{
    if p.len() > v.len() {
        return false;
    }
    let mut i: usize = 0;
    while i < p.len()
        invariant
            p.len() <= v.len(),
            0 <= i <= p.len(),
            forall|j: int| 0 <= j < i ==> p@[j] == v@[j],
        decreases p.len() - i,
    {
        if p[i] != v[i] {
            return false;
        }
        i += 1;
    }
    true
}

/// `str::ends_with`
pub fn ends_with_chars(v: &Vec<char>, p: &Vec<char>) -> (r: bool)
    ensures
        r == p@.is_suffix_of(v@),
{
    if p.len() > v.len() {
        return false;
    }
    let off = v.len() - p.len();
    let mut i: usize = 0;
    while i < p.len()
        invariant
            p.len() <= v.len(),
            off == v.len() - p.len(),
            0 <= i <= p.len(),
            forall|j: int| 0 <= j < i ==> p@[j] == v@[off + j],
        decreases p.len() - i,
    {
        if p[i] != v[off + i] {
            return false;
        }
        i += 1;
    }
    true
}

/// `str::strip_prefix`
pub open spec fn strip_prefix(s: Seq<char>, p: Seq<char>) -> Option<Seq<char>> {
    if p.is_prefix_of(s) {
        Some(s.skip(p.len() as int))
    } else {
        None
    }
}

pub fn strip_prefix_exec(v: &Vec<char>, p: &str) -> (r: Option<Vec<char>>)
    ensures
        r matches Some(t) ==> strip_prefix(v@, p@) == Some(t@),
        r is None ==> strip_prefix(v@, p@) is None,
{
    let pv = to_chars(p);
    if starts_with_chars(v, &pv) {
        let t = sub_chars(v, pv.len(), v.len());
        assert(t@ =~= v@.skip(p@.len() as int));
        Some(t)
    } else {
        None
    }
}

/// `str::contains` with a string pattern.
pub open spec fn contains_seq(s: Seq<char>, p: Seq<char>) -> bool {
    exists|i: int| 0 <= i && i + p.len() <= s.len() && #[trigger] s.subrange(i, i + p.len()) == p
}

pub fn contains_chars(v: &Vec<char>, p: &Vec<char>) -> (r: bool)
    ensures
        r == contains_seq(v@, p@),
{
    if p.len() > v.len() {
        return false;
    }
    let mut i: usize = 0;
    while i <= v.len() - p.len()
        invariant
            p.len() <= v.len(),
            0 <= i <= v.len() - p.len() + 1,
            forall|k: int| 0 <= k < i ==> #[trigger] v@.subrange(k, k + p.len()) != p@,
        decreases v.len() - i,
    {
        let mut j: usize = 0;
        let mut ok = true;
        while j < p.len()
            invariant
                i + p.len() <= v.len(),
                0 <= j <= p.len(),
                ok == (forall|m: int| 0 <= m < j ==> v@[i + m] == p@[m]),
            decreases p.len() - j,
        {
            if v[i + j] != p[j] {
                ok = false;
            }
            j += 1;
        }
        if ok {
            assert(v@.subrange(i as int, i + p.len()) =~= p@);
            return true;
        }
        proof {
            let m = choose|m: int| 0 <= m < p.len() && v@[i + m] != p@[m];
            assert(v@.subrange(i as int, i + p.len())[m] != p@[m]);
        }
        i += 1;
    }
    proof {
        assert forall|k: int|
            0 <= k && k + p@.len() <= v@.len() implies #[trigger] v@.subrange(k, k + p@.len())
            != p@ by {
            assert(k < i);
        }
    }
    false
}

// ------------------------------------------------------------------------------------------
// Splitting
// ------------------------------------------------------------------------------------------

/// `str::split` with a character delimiter.
pub open spec fn split_char(s: Seq<char>, c: char) -> Seq<Seq<char>>
    decreases s.len(),
{
    match find_char(s, c) {
        Some(i) => {
            if 0 <= i < s.len() {
                seq![s.take(i)] + split_char(s.skip(i + 1), c)
            } else {
                seq![s]
            }
        },
        None => seq![s],
    }
}

pub proof fn lemma_find_char_bounds(s: Seq<char>, c: char)
    ensures
        find_char(s, c) matches Some(i) ==> 0 <= i < s.len() && s[i] == c && forall|j: int|
            0 <= j < i ==> s[j] != c,
{
    if exists|i: int| 0 <= i < s.len() && s[i] == c {
        let i = choose|i: int| 0 <= i < s.len() && s[i] == c;
        lemma_first_exists(s, c, i);
    }
}

proof fn lemma_first_exists(s: Seq<char>, c: char, i: int)
    requires
        0 <= i < s.len(),
        s[i] == c,
    ensures
        exists|k: int| 0 <= k < s.len() && s[k] == c && forall|j: int| 0 <= j < k ==> s[j] != c,
    decreases i,
{
    if exists|j: int| 0 <= j < i && s[j] == c {
        let j = choose|j: int| 0 <= j < i && s[j] == c;
        lemma_first_exists(s, c, j);
    }
}

/// `str::split` with a character delimiter.
pub fn split_char_exec(v: &Vec<char>, c: char) -> (r: Vec<Vec<char>>)
    ensures
        r@.map_values(|x: Vec<char>| x@) == split_char(v@, c),
{
    let mut out: Vec<Vec<char>> = Vec::new();
    let mut rest = sub_chars(v, 0, v.len());
    assert(rest@ =~= v@);
    loop
        invariant
            out@.map_values(|x: Vec<char>| x@) + split_char(rest@, c) == split_char(v@, c),
        decreases rest@.len(),
    {
        proof {
            lemma_find_char_bounds(rest@, c);
        }
        match find_char_exec(&rest, c) {
            Some(i) => {
                let head = sub_chars(&rest, 0, i);
                let tail = sub_chars(&rest, i + 1, rest.len());
                assert(head@ =~= rest@.take(i as int));
                assert(tail@ =~= rest@.skip(i + 1));
                let ghost old_out = out@.map_values(|x: Vec<char>| x@);
                out.push(head);
                assert(out@.map_values(|x: Vec<char>| x@) =~= old_out.push(head@));
                assert(split_char(rest@, c) == seq![head@] + split_char(tail@, c));
                assert(old_out + split_char(rest@, c) =~= old_out.push(head@) + split_char(
                    tail@,
                    c,
                ));
                rest = tail;
            },
            None => {
                let ghost old_out = out@.map_values(|x: Vec<char>| x@);
                let last = rest;
                out.push(last);
                assert(out@.map_values(|x: Vec<char>| x@) =~= old_out.push(last@));
                assert(old_out + seq![last@] =~= old_out.push(last@));
                return out;
            },
        }
    }
}

/// A separator of words: Unicode white space, or ASCII white space only.
pub open spec fn is_sep(c: char, unicode: bool) -> bool {
    if unicode {
        is_ws(c)
    } else {
        is_ascii_ws(c)
    }
}

fn is_sep_exec(c: char, unicode: bool) -> (r: bool)
    ensures
        r == is_sep(c, unicode),
{
    if unicode {
        is_ws_exec(c)
    } else {
        is_ascii_ws_exec(c)
    }
}

/// One whitespace-separated word at the front of `s` (which starts with a non-whitespace char).
pub open spec fn word_len_by(s: Seq<char>, unicode: bool) -> nat
    decreases s.len(),
{
    if s.len() == 0 || is_sep(s[0], unicode) {
        0
    } else {
        1 + word_len_by(s.drop_first(), unicode)
    }
}

/// Drop leading ASCII whitespace.
pub open spec fn skip_ws_by(s: Seq<char>, unicode: bool) -> Seq<char>
    decreases s.len(),
{
    if s.len() > 0 && is_sep(s[0], unicode) {
        skip_ws_by(s.drop_first(), unicode)
    } else {
        s
    }
}

proof fn lemma_skip_ws_len(s: Seq<char>, unicode: bool)
    ensures
        skip_ws_by(s, unicode).len() <= s.len(),
        skip_ws_by(s, unicode).len() > 0 ==> !is_sep(skip_ws_by(s, unicode)[0], unicode),
    decreases s.len(),
{
    if s.len() > 0 && is_sep(s[0], unicode) {
        lemma_skip_ws_len(s.drop_first(), unicode);
    }
}

proof fn lemma_word_len(s: Seq<char>, unicode: bool)
    ensures
        word_len_by(s, unicode) <= s.len(),
        s.len() > 0 && !is_sep(s[0], unicode) ==> word_len_by(s, unicode) > 0,
        forall|j: int| 0 <= j < word_len_by(s, unicode) ==> !is_sep(s[j], unicode),
        word_len_by(s, unicode) < s.len() ==> is_sep(s[word_len_by(s, unicode) as int], unicode),
    decreases s.len(),
{
    if !(s.len() == 0 || is_sep(s[0], unicode)) {
        lemma_word_len(s.drop_first(), unicode);
        assert forall|j: int| 0 <= j < word_len_by(s, unicode) implies !is_sep(s[j], unicode) by {
            if j > 0 {
                assert(s[j] == s.drop_first()[j - 1]);
            }
        }
    }
}

/// `str::split_ascii_whitespace`
pub open spec fn words_by(s: Seq<char>, unicode: bool) -> Seq<Seq<char>>
    decreases s.len(),
{
    let t = skip_ws_by(s, unicode);
    if t.len() == 0 || t.len() > s.len() {
        seq![]
    } else {
        let w = word_len_by(t, unicode);
        if 0 < w <= t.len() {
            seq![t.take(w as int)] + words_by(t.skip(w as int), unicode)
        } else {
            seq![]
        }
    }
}

proof fn lemma_skip_ws_skip(s: Seq<char>, i: int, unicode: bool)
    requires
        0 <= i <= s.len(),
        forall|j: int| 0 <= j < i ==> is_sep(s[j], unicode),
    ensures
        skip_ws_by(s, unicode) == skip_ws_by(s.skip(i), unicode),
    decreases i,
{
    if i > 0 {
        lemma_skip_ws_skip(s.drop_first(), i - 1, unicode);
        assert(s.drop_first().skip(i - 1) =~= s.skip(i));
    } else {
        assert(s.skip(0) =~= s);
    }
}

proof fn lemma_word_len_take(s: Seq<char>, i: int, unicode: bool)
    requires
        0 <= i <= s.len(),
        forall|j: int| 0 <= j < i ==> !is_sep(s[j], unicode),
        i == s.len() || is_sep(s[i], unicode),
    ensures
        word_len_by(s, unicode) == i,
    decreases i,
{
    if i > 0 {
        lemma_word_len_take(s.drop_first(), i - 1, unicode);
    }
}

/// `str::split_ascii_whitespace`
pub fn words_by_exec(v: &Vec<char>, unicode: bool) -> (r: Vec<Vec<char>>)
    ensures
        r@.map_values(|x: Vec<char>| x@) == words_by(v@, unicode),
{
    let mut out: Vec<Vec<char>> = Vec::new();
    let mut i: usize = 0;
    assert(v@.skip(0) =~= v@);
    assert(out@.map_values(|x: Vec<char>| x@) + words_by(v@, unicode) =~= words_by(v@, unicode));
    loop
        invariant
            0 <= i <= v.len(),
            out@.map_values(|x: Vec<char>| x@) + words_by(v@.skip(i as int), unicode) == words_by(v@, unicode),
        decreases v.len() - i,
    {
        let start = i;
        while i < v.len() && is_sep_exec(v[i], unicode)
            invariant
                start <= i <= v.len(),
                forall|j: int| start <= j < i ==> is_sep(v@[j], unicode),
            decreases v.len() - i,
        {
            i += 1;
        }
        proof {
            let s = v@.skip(start as int);
            lemma_skip_ws_skip(s, i - start, unicode);
            assert(s.skip(i - start) =~= v@.skip(i as int));
            lemma_skip_ws_len(v@.skip(i as int), unicode);
            lemma_skip_ws_len(s, unicode);
            let t = v@.skip(i as int);
            if t.len() > 0 {
                assert(t[0] == v@[i as int]);
            }
            assert(skip_ws_by(t, unicode) == t);
        }
        if i == v.len() {
            proof {
                let s = v@.skip(start as int);
                assert(skip_ws_by(s, unicode).len() == 0);
                assert(words_by(s, unicode) =~= Seq::<Seq<char>>::empty());
            }
            let ghost o = out@.map_values(|x: Vec<char>| x@);
            assert(o + Seq::<Seq<char>>::empty() =~= o);
            return out;
        }
        let wstart = i;
        while i < v.len() && !is_sep_exec(v[i], unicode)
            invariant
                wstart <= i <= v.len(),
                forall|j: int| wstart <= j < i ==> !is_sep(v@[j], unicode),
            decreases v.len() - i,
        {
            i += 1;
        }
        let w = sub_chars(v, wstart, i);
        proof {
            let s = v@.skip(start as int);
            let t = v@.skip(wstart as int);
            assert(skip_ws_by(s, unicode) == t);
            lemma_word_len_take(t, i - wstart, unicode);
            assert(t.take(i - wstart) =~= w@);
            assert(t.skip(i - wstart) =~= v@.skip(i as int));
            assert(t.len() <= s.len());
            assert(words_by(s, unicode) == seq![w@] + words_by(v@.skip(i as int), unicode));
        }
        let ghost o = out@.map_values(|x: Vec<char>| x@);
        out.push(w);
        proof {
            assert(out@.map_values(|x: Vec<char>| x@) =~= o.push(w@));
            assert(o + (seq![w@] + words_by(v@.skip(i as int), unicode)) =~= o.push(w@) + words_by(
                v@.skip(i as int),
                unicode,
            ));
        }
    }
}

/// `str::split_ascii_whitespace`
pub open spec fn words(s: Seq<char>) -> Seq<Seq<char>> {
    words_by(s, false)
}

/// `str::split_whitespace`
pub open spec fn words_unicode(s: Seq<char>) -> Seq<Seq<char>> {
    words_by(s, true)
}

/// `str::split_ascii_whitespace`
pub fn words_exec(v: &Vec<char>) -> (r: Vec<Vec<char>>)
    ensures
        r@.map_values(|x: Vec<char>| x@) == words(v@),
{
    words_by_exec(v, false)
}

/// `str::split_whitespace`
pub fn words_unicode_exec(v: &Vec<char>) -> (r: Vec<Vec<char>>)
    ensures
        r@.map_values(|x: Vec<char>| x@) == words_unicode(v@),
{
    words_by_exec(v, true)
}

// ------------------------------------------------------------------------------------------
// Integers
// ------------------------------------------------------------------------------------------

/// All characters are ASCII decimal digits.
pub open spec fn all_digits(s: Seq<char>) -> bool {
    forall|i: int| 0 <= i < s.len() ==> is_digit(#[trigger] s[i])
}

/// The value of a sequence of decimal digits.
pub open spec fn digits_value(s: Seq<char>) -> nat
    decreases s.len(),
{
    if s.len() == 0 {
        0
    } else {
        digits_value(s.drop_last()) * 10 + digit_value(s.last())
    }
}

/// The digits of an unsigned integer literal as `str::parse` reads it: an optional `+`, then at
/// least one decimal digit.
pub open spec fn unsigned_digits(s: Seq<char>) -> Option<Seq<char>> {
    let d = if s.len() > 0 && s[0] == '+' {
        s.drop_first()
    } else {
        s
    };
    if d.len() > 0 && all_digits(d) {
        Some(d)
    } else {
        None
    }
}

/// `str::parse::<u64>`
pub open spec fn parse_u64(s: Seq<char>) -> Option<u64> {
    match unsigned_digits(s) {
        Some(d) => if digits_value(d) <= u64::MAX {
            Some(digits_value(d) as u64)
        } else {
            None
        },
        None => None,
    }
}

/// `str::parse::<usize>`
pub open spec fn parse_usize(s: Seq<char>) -> Option<usize> {
    match unsigned_digits(s) {
        Some(d) => if digits_value(d) <= usize::MAX {
            Some(digits_value(d) as usize)
        } else {
            None
        },
        None => None,
    }
}

/// `str::parse::<i32>`: an optional sign, then at least one decimal digit.
pub open spec fn parse_i32(s: Seq<char>) -> Option<i32> {
    if s.len() > 0 && s[0] == '-' {
        let d = s.drop_first();
        if d.len() > 0 && all_digits(d) && digits_value(d) <= 0x8000_0000 {
            Some((0 - digits_value(d)) as i32)
        } else {
            None
        }
    } else {
        match unsigned_digits(s) {
            Some(d) => if digits_value(d) <= i32::MAX {
                Some(digits_value(d) as i32)
            } else {
                None
            },
            None => None,
        }
    }
}

proof fn lemma_digits_value_push(s: Seq<char>, c: char)
    ensures
        digits_value(s.push(c)) == digits_value(s) * 10 + digit_value(c),
{
    assert(s.push(c).drop_last() =~= s);
}

proof fn lemma_digits_value_monotone(s: Seq<char>, i: int)
    requires
        0 <= i <= s.len(),
        all_digits(s),
    ensures
        digits_value(s.take(i)) <= digits_value(s),
    decreases s.len() - i,
{
    if i < s.len() {
        lemma_digits_value_monotone(s, i + 1);
        assert(s.take(i + 1) =~= s.take(i).push(s[i]));
        lemma_digits_value_push(s.take(i), s[i]);
    } else {
        assert(s.take(i) =~= s);
    }
}

/// Accumulate the value of the decimal digits `v[lo..hi]`; `None` if it exceeds `max`.
fn digits_value_exec(v: &Vec<char>, lo: usize, hi: usize, max: u64) -> (r: Option<u64>)
    requires
        lo <= hi <= v.len(),
        all_digits(v@.subrange(lo as int, hi as int)),
    ensures
        r matches Some(n) ==> n == digits_value(v@.subrange(lo as int, hi as int)) && n <= max,
        r is None ==> digits_value(v@.subrange(lo as int, hi as int)) > max,
{
    let ghost d = v@.subrange(lo as int, hi as int);
    let mut acc: u64 = 0;
    let mut i: usize = lo;
    while i < hi
        invariant
            lo <= i <= hi <= v.len(),
            d == v@.subrange(lo as int, hi as int),
            all_digits(d),
            acc == digits_value(d.take(i - lo)),
            acc <= max,
        decreases hi - i,
    {
        let c = v[i];
        assert(d[i - lo] == c);
        let dv = (c as u32 - '0' as u32) as u64;
        proof {
            assert(d.take(i - lo + 1) =~= d.take(i - lo).push(c));
            lemma_digits_value_push(d.take(i - lo), c);
        }
        let m = acc.checked_mul(10);
        match m {
            Some(m) => match m.checked_add(dv) {
                Some(n) => {
                    if n > max {
                        proof {
                            lemma_digits_value_monotone(d, i - lo + 1);
                        }
                        return None;
                    }
                    acc = n;
                },
                None => {
                    proof {
                        lemma_digits_value_monotone(d, i - lo + 1);
                    }
                    return None;
                },
            },
            None => {
                proof {
                    lemma_digits_value_monotone(d, i - lo + 1);
                }
                return None;
            },
        }
        i += 1;
    }
    assert(d.take(hi - lo) =~= d);
    Some(acc)
}

/// The range of the digits of an unsigned literal, without the optional `+`.
fn unsigned_digits_range(v: &Vec<char>) -> (r: Option<usize>)
    ensures
        r matches Some(lo) ==> lo <= v.len() && unsigned_digits(v@) == Some(
            v@.subrange(lo as int, v.len() as int),
        ),
        r is None ==> unsigned_digits(v@) is None,
{
    let lo: usize = if v.len() > 0 && v[0] == '+' {
        1
    } else {
        0
    };
    assert(lo == 1 ==> v@.drop_first() =~= v@.subrange(1, v.len() as int));
    assert(lo == 0 ==> v@ =~= v@.subrange(0, v.len() as int));
    if lo == v.len() {
        assert(v@.subrange(lo as int, v.len() as int).len() == 0);
        return None;
    }
    let mut i: usize = lo;
    while i < v.len()
        invariant
            lo <= i <= v.len(),
            lo < v.len(),
            lo == (if v@.len() > 0 && v@[0] == '+' { 1int } else { 0int }),
            forall|j: int| lo <= j < i ==> is_digit(v@[j]),
        decreases v.len() - i,
    {
        if !is_digit_exec(v[i]) {
            proof {
                let d = v@.subrange(lo as int, v.len() as int);
                assert(!is_digit(d[i - lo]));
            }
            return None;
        }
        i += 1;
    }
    Some(lo)
}

/// `str::parse::<u64>`
pub fn parse_u64_exec(v: &Vec<char>) -> (r: Option<u64>)
    ensures
        r == parse_u64(v@),
{
    match unsigned_digits_range(v) {
        Some(lo) => digits_value_exec(v, lo, v.len(), u64::MAX),
        None => None,
    }
}

/// `str::parse::<usize>`
pub fn parse_usize_exec(v: &Vec<char>) -> (r: Option<usize>)
    ensures
        r == parse_usize(v@),
{
    match unsigned_digits_range(v) {
        Some(lo) => {
            let max = usize::MAX as u64;
            match digits_value_exec(v, lo, v.len(), max) {
                Some(n) => Some(n as usize),
                None => None,
            }
        },
        None => None,
    }
}

/// `str::parse::<i32>`
pub fn parse_i32_exec(v: &Vec<char>) -> (r: Option<i32>)
    ensures
        r == parse_i32(v@),
{
    if v.len() > 0 && v[0] == '-' {
        if v.len() == 1 {
            return None;
        }
        let mut i: usize = 1;
        while i < v.len()
            invariant
                1 <= i <= v.len(),
                v@[0] == '-',
                forall|j: int| 1 <= j < i ==> is_digit(v@[j]),
            decreases v.len() - i,
        {
            if !is_digit_exec(v[i]) {
                proof {
                    let d = v@.drop_first();
                    assert(!is_digit(d[i - 1]));
                }
                return None;
            }
            i += 1;
        }
        assert(v@.drop_first() =~= v@.subrange(1, v.len() as int));
        match digits_value_exec(v, 1, v.len(), 0x8000_0000) {
            Some(n) => {
                let r: i64 = 0i64 - (n as i64);
                Some(r as i32)
            },
            None => None,
        }
    } else {
        match unsigned_digits_range(v) {
            Some(lo) => match digits_value_exec(v, lo, v.len(), 0x7fff_ffff) {
                Some(n) => Some(n as i32),
                None => None,
            },
            None => None,
        }
    }
}

/// `char::is_ascii_hexdigit`
pub open spec fn is_hex_digit(c: char) -> bool {
    ('0' <= c && c <= '9') || ('a' <= c && c <= 'f') || ('A' <= c && c <= 'F')
}

pub open spec fn hex_digit_value(c: char) -> nat {
    if '0' <= c && c <= '9' {
        (c as u32 - '0' as u32) as nat
    } else if 'a' <= c && c <= 'f' {
        (c as u32 - 'a' as u32 + 10) as nat
    } else {
        (c as u32 - 'A' as u32 + 10) as nat
    }
}

/// The value of a sequence of hexadecimal digits.
pub open spec fn hex_value(s: Seq<char>) -> nat
    decreases s.len(),
{
    if s.len() == 0 {
        0
    } else {
        hex_value(s.drop_last()) * 16 + hex_digit_value(s.last())
    }
}

/// All characters are ASCII hexadecimal digits.
pub open spec fn all_hex_digits(s: Seq<char>) -> bool {
    forall|i: int| 0 <= i < s.len() ==> is_hex_digit(#[trigger] s[i])
}

/// `u64::from_str_radix(s, 16)`: an optional `+`, then at least one hexadecimal digit.
pub open spec fn parse_u64_hex(s: Seq<char>) -> Option<u64> {
    let d = if s.len() > 0 && s[0] == '+' {
        s.drop_first()
    } else {
        s
    };
    if d.len() > 0 && all_hex_digits(d) && hex_value(d) <= u64::MAX {
        Some(hex_value(d) as u64)
    } else {
        None
    }
}

proof fn lemma_hex_value_push(s: Seq<char>, c: char)
    ensures
        hex_value(s.push(c)) == hex_value(s) * 16 + hex_digit_value(c),
{
    assert(s.push(c).drop_last() =~= s);
}

proof fn lemma_hex_value_monotone(s: Seq<char>, i: int)
    requires
        0 <= i <= s.len(),
    ensures
        hex_value(s.take(i)) <= hex_value(s),
    decreases s.len() - i,
{
    if i < s.len() {
        lemma_hex_value_monotone(s, i + 1);
        assert(s.take(i + 1) =~= s.take(i).push(s[i]));
        lemma_hex_value_push(s.take(i), s[i]);
    } else {
        assert(s.take(i) =~= s);
    }
}

/// `u64::from_str_radix(s, 16)`
pub fn parse_u64_hex_exec(v: &Vec<char>) -> (r: Option<u64>)
    ensures
        r == parse_u64_hex(v@),
{
    let lo: usize = if v.len() > 0 && v[0] == '+' {
        1
    } else {
        0
    };
    let ghost d = if v@.len() > 0 && v@[0] == '+' {
        v@.drop_first()
    } else {
        v@
    };
    assert(d =~= v@.subrange(lo as int, v.len() as int));
    if lo == v.len() {
        return None;
    }
    let mut k: usize = lo;
    while k < v.len()
        invariant
            lo <= k <= v.len(),
            d == v@.subrange(lo as int, v.len() as int),
            d == (if v@.len() > 0 && v@[0] == '+' { v@.drop_first() } else { v@ }),
            forall|j: int| 0 <= j < k - lo ==> is_hex_digit(#[trigger] d[j]),
        decreases v.len() - k,
    {
        let e = v[k];
        assert(d[k - lo] == e);
        if !(('0' <= e && e <= '9') || ('a' <= e && e <= 'f') || ('A' <= e && e <= 'F')) {
            assert(!is_hex_digit(d[k - lo]));
            assert(!all_hex_digits(d));
            return None;
        }
        k += 1;
    }
    let mut acc: u64 = 0;
    let mut i: usize = lo;
    while i < v.len()
        invariant
            lo <= i <= v.len(),
            d == v@.subrange(lo as int, v.len() as int),
            d == (if v@.len() > 0 && v@[0] == '+' { v@.drop_first() } else { v@ }),
            forall|j: int| 0 <= j < d.len() ==> is_hex_digit(#[trigger] d[j]),
            acc == hex_value(d.take(i - lo)),
        decreases v.len() - i,
    {
        let c = v[i];
        assert(d[i - lo] == c);
        let dv: u64 = if '0' <= c && c <= '9' {
            (c as u32 - '0' as u32) as u64
        } else if 'a' <= c && c <= 'f' {
            (c as u32 - 'a' as u32 + 10) as u64
        } else {
            (c as u32 - 'A' as u32 + 10) as u64
        };
        proof {
            assert(d.take(i - lo + 1) =~= d.take(i - lo).push(c));
            lemma_hex_value_push(d.take(i - lo), c);
        }
        match acc.checked_mul(16) {
            Some(m) => match m.checked_add(dv) {
                Some(n) => {
                    acc = n;
                },
                None => {
                    proof {
                        lemma_hex_value_monotone(d, i - lo + 1);
                    }
                    return None;
                },
            },
            None => {
                proof {
                    lemma_hex_value_monotone(d, i - lo + 1);
                }
                return None;
            },
        }
        i += 1;
    }
    assert(d.take(v.len() - lo) =~= d);
    Some(acc)
}

// ------------------------------------------------------------------------------------------
// Decimal formatting
// ------------------------------------------------------------------------------------------

pub open spec fn digit_char(d: nat) -> char {
    ((d + '0' as u32) as u32) as char
}

/// The decimal representation of a natural number, as `u64::to_string` writes it.
pub open spec fn decimal(n: nat) -> Seq<char>
    decreases n,
{
    if n < 10 {
        seq![digit_char(n)]
    } else {
        decimal(n / 10).push(digit_char(n % 10))
    }
}

/// `u64::to_string`
pub fn u64_to_chars(n: u64) -> (r: Vec<char>)
    ensures
        r@ == decimal(n as nat),
    decreases n,
{
    if n < 10 {
        let c = char_of_digit(n);
        let mut r: Vec<char> = Vec::new();
        r.push(c);
        assert(r@ =~= seq![digit_char(n as nat)]);
        r
    } else {
        let mut r = u64_to_chars(n / 10);
        let c = char_of_digit(n % 10);
        r.push(c);
        r
    }
}

fn char_of_digit(d: u64) -> (c: char)
    requires
        d < 10,
    ensures
        c == digit_char(d as nat),
{
    if d == 0 {
        '0'
    } else if d == 1 {
        '1'
    } else if d == 2 {
        '2'
    } else if d == 3 {
        '3'
    } else if d == 4 {
        '4'
    } else if d == 5 {
        '5'
    } else if d == 6 {
        '6'
    } else if d == 7 {
        '7'
    } else if d == 8 {
        '8'
    } else {
        '9'
    }
}

/// `u64::to_string`
pub fn u64_to_string(n: u64) -> (r: String)
    ensures
        r@ == decimal(n as nat),
{
    let v = u64_to_chars(n);
    from_chars(&v)
}

/// `str::to_lowercase`: the lowercase mapping of Unicode applied to each character.
pub uninterp spec fn lowercase(s: Seq<char>) -> Seq<char>;

/// Calls `str::to_lowercase`. Its result is stated through the name `lowercase` of this crate,
/// a function of the characters of the argument alone.
#[verifier::external_body]
pub(crate) fn to_lowercase(s: &str) -> (r: String)
    ensures
        r@ == lowercase(s@),
{
    s.to_lowercase()
}

} // verus!
