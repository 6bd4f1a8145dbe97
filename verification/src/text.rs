//! Character-level text operations with their mathematical meaning.
//!
//! Strings are modelled by their sequence of characters (`Seq<char>`); every
//! executable helper here works on `Vec<char>` and is proved to compute the
//! spec function of the same name.
use vstd::prelude::*;

verus! {

// ---------------------------------------------------------------------------
// Conversions between `String`/`&str` and character vectors
// ---------------------------------------------------------------------------

/// Appends one character to a `String` (`String::push`).
/// Trusted: the std documentation states that `push` appends the given
/// character to the end of the string.
#[verifier::external_body]
fn push_char(s: &mut String, c: char)
    ensures
        final(s)@ == old(s)@.push(c),
{
    s.push(c)
}

/// The characters of `s`, in order.
pub fn chars_of(s: &str) -> (v: Vec<char>)
    ensures
        v@ == s@,
{
    broadcast use vstd::string::group_string_axioms;

    let mut v: Vec<char> = Vec::new();
    for c in it: s.chars()
        invariant
            v@ == it.seq().take(it.index() as int),
            it.seq() == s@,
    {
        v.push(c);
    }
    v
}

/// The string made of the characters of `v`, in order.
pub fn string_of(v: &Vec<char>) -> (s: String)
    ensures
        s@ == v@,
{
    let mut s = String::new();
    let mut i: usize = 0;
    while i < v.len()
        invariant
            i <= v.len(),
            s@ == v@.take(i as int),
        decreases v.len() - i,
    {
        push_char(&mut s, v[i]);
        i += 1;
        assert(s@ =~= v@.take(i as int));
    }
    assert(v@.take(v.len() as int) =~= v@);
    s
}

/// Copies `v[from..to]`.
pub fn subvec(v: &Vec<char>, from: usize, to: usize) -> (r: Vec<char>)
    requires
        from <= to <= v.len(),
    ensures
        r@ == v@.subrange(from as int, to as int),
{
    let mut r: Vec<char> = Vec::new();
    let mut i = from;
    while i < to
        invariant
            from <= i <= to <= v.len(),
            r@ == v@.subrange(from as int, i as int),
        decreases to - i,
    {
        r.push(v[i]);
        i += 1;
        assert(r@ =~= v@.subrange(from as int, i as int));
    }
    r
}

// ---------------------------------------------------------------------------
// Character classes
// ---------------------------------------------------------------------------

/// Unicode `White_Space` characters (what `char::is_whitespace` accepts).
pub open spec fn is_whitespace(c: char) -> bool {
    ||| ('\u{9}' <= c && c <= '\u{d}')
    ||| c == ' '
    ||| c == '\u{85}'
    ||| c == '\u{a0}'
    ||| c == '\u{1680}'
    ||| ('\u{2000}' <= c && c <= '\u{200a}')
    ||| c == '\u{2028}'
    ||| c == '\u{2029}'
    ||| c == '\u{202f}'
    ||| c == '\u{205f}'
    ||| c == '\u{3000}'
}

/// Executable test for [`is_whitespace`].
pub fn char_is_whitespace(c: char) -> (b: bool)
    ensures
        b == is_whitespace(c),
{
    ('\u{9}' <= c && c <= '\u{d}') || c == ' ' || c == '\u{85}' || c == '\u{a0}' || c
        == '\u{1680}' || ('\u{2000}' <= c && c <= '\u{200a}') || c == '\u{2028}' || c
        == '\u{2029}' || c == '\u{202f}' || c == '\u{205f}' || c == '\u{3000}'
}

/// The characters that a strip operation removes.
#[derive(Clone, Copy, Debug, PartialEq, Eq, Structural)]
pub enum CharClass {
    Whitespace,
    DoubleQuote,
}

pub open spec fn in_class(cls: CharClass, c: char) -> bool {
    match cls {
        CharClass::Whitespace => is_whitespace(c),
        CharClass::DoubleQuote => c == '"',
    }
}

pub fn char_in_class(cls: CharClass, c: char) -> (b: bool)
    ensures
        b == in_class(cls, c),
{
    match cls {
        CharClass::Whitespace => char_is_whitespace(c),
        CharClass::DoubleQuote => c == '"',
    }
}

/// ASCII upper case of one character (other characters unchanged).
pub open spec fn ascii_upper_char(c: char) -> char {
    if 'a' <= c && c <= 'z' {
        ((c as u8) - 32) as char
    } else {
        c
    }
}

/// ASCII lower case of one character (other characters unchanged).
pub open spec fn ascii_lower_char(c: char) -> char {
    if 'A' <= c && c <= 'Z' {
        ((c as u8) + 32) as char
    } else {
        c
    }
}

/// `s` with every ASCII lower-case letter replaced by its upper case.
pub open spec fn ascii_upper(s: Seq<char>) -> Seq<char> {
    Seq::new(s.len(), |i: int| ascii_upper_char(s[i]))
}

pub fn upper_char(c: char) -> (r: char)
    ensures
        r == ascii_upper_char(c),
{
    if 'a' <= c && c <= 'z' {
        ((c as u8) - 32) as char
    } else {
        c
    }
}

pub fn lower_char(c: char) -> (r: char)
    ensures
        r == ascii_lower_char(c),
{
    if 'A' <= c && c <= 'Z' {
        ((c as u8) + 32) as char
    } else {
        c
    }
}

/// ASCII upper case of a whole string (`str::to_ascii_uppercase`).
pub fn to_ascii_uppercase(v: &Vec<char>) -> (r: Vec<char>)
    ensures
        r@ == ascii_upper(v@),
{
    let mut r: Vec<char> = Vec::new();
    let mut i: usize = 0;
    while i < v.len()
        invariant
            i <= v.len(),
            r@ == ascii_upper(v@.take(i as int)),
        decreases v.len() - i,
    {
        let c = upper_char(v[i]);
        r.push(c);
        i += 1;
        assert(r@ =~= ascii_upper(v@.take(i as int)));
    }
    assert(v@.take(v.len() as int) =~= v@);
    r
}

// ---------------------------------------------------------------------------
// Stripping
// ---------------------------------------------------------------------------

/// `s` without its longest prefix of characters in `cls`.
pub open spec fn strip_start(s: Seq<char>, cls: CharClass) -> Seq<char>
    decreases s.len(),
{
    if s.len() > 0 && in_class(cls, s[0]) {
        strip_start(s.drop_first(), cls)
    } else {
        s
    }
}

/// `s` without its longest suffix of characters in `cls`.
pub open spec fn strip_end(s: Seq<char>, cls: CharClass) -> Seq<char>
    decreases s.len(),
{
    if s.len() > 0 && in_class(cls, s.last()) {
        strip_end(s.drop_last(), cls)
    } else {
        s
    }
}

/// `str::trim`: leading and trailing white space removed.
pub open spec fn trim(s: Seq<char>) -> Seq<char> {
    strip_end(strip_start(s, CharClass::Whitespace), CharClass::Whitespace)
}

/// `str::trim_matches('"')`: leading and trailing double quotes removed.
pub open spec fn trim_quotes(s: Seq<char>) -> Seq<char> {
    strip_end(strip_start(s, CharClass::DoubleQuote), CharClass::DoubleQuote)
}

pub(crate) proof fn lemma_strip_start(s: Seq<char>, cls: CharClass, k: int)
    requires
        0 <= k <= s.len(),
        forall|i: int| 0 <= i < k ==> in_class(cls, #[trigger] s[i]),
        k == s.len() || !in_class(cls, s[k]),
    ensures
        strip_start(s, cls) == s.skip(k),
    decreases k,
{
    if k == 0 {
        assert(s.skip(0) =~= s);
    } else {
        let t = s.drop_first();
        assert forall|i: int| 0 <= i < k - 1 implies in_class(cls, #[trigger] t[i]) by {
            assert(t[i] == s[i + 1]);
        }
        lemma_strip_start(t, cls, k - 1);
        assert(t.skip(k - 1) =~= s.skip(k));
    }
}

pub(crate) proof fn lemma_strip_end(s: Seq<char>, cls: CharClass, k: int)
    requires
        0 <= k <= s.len(),
        forall|i: int| k <= i < s.len() ==> in_class(cls, #[trigger] s[i]),
        k == 0 || !in_class(cls, s[k - 1]),
    ensures
        strip_end(s, cls) == s.take(k),
    decreases s.len() - k,
{
    if k == s.len() {
        assert(s.take(k) =~= s);
    } else {
        let t = s.drop_last();
        assert forall|i: int| k <= i < t.len() implies in_class(cls, #[trigger] t[i]) by {
            assert(t[i] == s[i]);
        }
        assert(in_class(cls, s[s.len() - 1]));
        lemma_strip_end(t, cls, k);
        assert(t.take(k) =~= s.take(k));
    }
}

/// Removes the leading and trailing characters of class `cls`.
pub fn strip_both(v: &Vec<char>, cls: CharClass) -> (r: Vec<char>)
    ensures
        r@ == strip_end(strip_start(v@, cls), cls),
{
    let n = v.len();
    let mut a: usize = 0;
    while a < n && char_in_class(cls, v[a])
        invariant
            a <= n == v.len(),
            forall|i: int| 0 <= i < a ==> in_class(cls, #[trigger] v@[i]),
        decreases n - a,
    {
        a += 1;
    }
    proof {
        lemma_strip_start(v@, cls, a as int);
    }
    let mut b: usize = n;
    while b > a && char_in_class(cls, v[b - 1])
        invariant
            a <= b <= n == v.len(),
            forall|i: int| b <= i < n ==> in_class(cls, #[trigger] v@[i]),
        decreases b,
    {
        b -= 1;
    }
    let ghost t = v@.skip(a as int);
    proof {
        assert forall|i: int| (b - a) <= i < t.len() implies in_class(cls, #[trigger] t[i]) by {
            assert(t[i] == v@[i + a]);
        }
        if b > a {
            assert(t[b - a - 1] == v@[b - 1]);
        }
        lemma_strip_end(t, cls, b - a);
        assert(t.take(b - a) =~= v@.subrange(a as int, b as int));
    }
    subvec(v, a, b)
}

/// `str::trim`.
pub fn trim_chars(v: &Vec<char>) -> (r: Vec<char>)
    ensures
        r@ == trim(v@),
{
    strip_both(v, CharClass::Whitespace)
}

/// `str::trim_matches('"')`.
pub fn trim_quote_chars(v: &Vec<char>) -> (r: Vec<char>)
    ensures
        r@ == trim_quotes(v@),
{
    strip_both(v, CharClass::DoubleQuote)
}

/// `str::trim_end_matches("\r\n")`: every trailing `"\r\n"` removed.
pub open spec fn trim_end_crlf(s: Seq<char>) -> Seq<char>
    decreases s.len(),
{
    if s.len() >= 2 && s[s.len() - 2] == '\r' && s[s.len() - 1] == '\n' {
        trim_end_crlf(s.take(s.len() - 2))
    } else {
        s
    }
}

pub fn trim_end_crlf_chars(v: &Vec<char>) -> (r: Vec<char>)
    ensures
        r@ == trim_end_crlf(v@),
{
    let mut k: usize = v.len();
    assert(v@.take(k as int) =~= v@);
    while k >= 2 && v[k - 2] == '\r' && v[k - 1] == '\n'
        invariant
            k <= v.len(),
            trim_end_crlf(v@) == trim_end_crlf(v@.take(k as int)),
        decreases k,
    {
        assert(v@.take(k as int).take(k - 2) =~= v@.take(k - 2));
        k -= 2;
    }
    assert(v@.take(k as int) =~= v@.subrange(0, k as int));
    subvec(v, 0, k)
}

// ---------------------------------------------------------------------------
// Searching
// ---------------------------------------------------------------------------

/// `p` occurs in `s` at position `i`.
pub open spec fn matches_at(s: Seq<char>, p: Seq<char>, i: int) -> bool {
    0 <= i && i + p.len() <= s.len() && s.subrange(i, i + p.len()) == p
}

/// The first position `>= i` at which `p` occurs in `s`.
pub open spec fn find_from(s: Seq<char>, p: Seq<char>, i: int) -> Option<int>
    decreases s.len() - i,
{
    if i < 0 || i + p.len() > s.len() {
        None
    } else if matches_at(s, p, i) {
        Some(i)
    } else if i >= s.len() {
        None
    } else {
        find_from(s, p, i + 1)
    }
}

/// `str::find`: the first position at which `p` occurs in `s`.
pub open spec fn find(s: Seq<char>, p: Seq<char>) -> Option<int> {
    find_from(s, p, 0)
}

/// `str::contains`.
pub open spec fn contains(s: Seq<char>, p: Seq<char>) -> bool {
    find(s, p) is Some
}

/// `str::starts_with`.
pub open spec fn starts_with(s: Seq<char>, p: Seq<char>) -> bool {
    matches_at(s, p, 0)
}

/// The first `p.len()` characters of `s`, compared in ASCII lower case, are `p`.
pub open spec fn starts_with_ascii_lower(s: Seq<char>, p: Seq<char>) -> bool {
    &&& p.len() <= s.len()
    &&& forall|i: int| 0 <= i < p.len() ==> ascii_lower_char(#[trigger] s[i]) == p[i]
}

pub proof fn lemma_find_from(s: Seq<char>, p: Seq<char>, i: int)
    requires
        0 <= i,
    ensures
        find_from(s, p, i) matches Some(j) ==> i <= j && matches_at(s, p, j) && forall|k: int|
            i <= k < j ==> !matches_at(s, p, k),
        find_from(s, p, i) is None ==> forall|k: int| i <= k ==> !matches_at(s, p, k),
    decreases s.len() - i,
{
    if i + p.len() > s.len() {
    } else if matches_at(s, p, i) {
    } else if i >= s.len() {
        assert(s.subrange(i, i + p.len()) =~= p);
    } else {
        lemma_find_from(s, p, i + 1);
    }
}

/// `p` occurs in `s` at position `i` (executable).
pub fn matches_at_chars(v: &Vec<char>, p: &Vec<char>, i: usize) -> (b: bool)
    ensures
        b == matches_at(v@, p@, i as int),
{
    if i > v.len() || p.len() > v.len() - i {
        return false;
    }
    let mut k: usize = 0;
    while k < p.len()
        invariant
            i + p.len() <= v.len(),
            k <= p.len(),
            forall|j: int| 0 <= j < k ==> v@[i + j] == p@[j],
        decreases p.len() - k,
    {
        if v[i + k] != p[k] {
            assert(v@.subrange(i as int, i + p.len())[k as int] != p@[k as int]);
            return false;
        }
        k += 1;
    }
    assert(v@.subrange(i as int, i + p.len()) =~= p@);
    true
}

/// `str::find` (executable), as a character position.
pub fn find_chars(v: &Vec<char>, p: &Vec<char>) -> (r: Option<usize>)
    ensures
        r matches Some(j) ==> find(v@, p@) == Some(j as int),
        r is None ==> find(v@, p@) is None,
{
    if p.len() > v.len() {
        return None;
    }
    let last = v.len() - p.len();
    let mut i: usize = 0;
    loop
        invariant
            i <= last,
            last + p.len() == v.len(),
            find(v@, p@) == find_from(v@, p@, i as int),
        decreases last - i,
    {
        if matches_at_chars(v, p, i) {
            return Some(i);
        }
        if i == last {
            assert(find_from(v@, p@, i + 1) is None);
            return None;
        }
        i += 1;
    }
}

/// `str::starts_with` (executable).
pub fn starts_with_chars(v: &Vec<char>, p: &Vec<char>) -> (b: bool)
    ensures
        b == starts_with(v@, p@),
{
    matches_at_chars(v, p, 0)
}

/// ASCII-case-insensitive prefix test (executable); `p` is given in lower case.
pub fn starts_with_ascii_lower_chars(v: &Vec<char>, p: &Vec<char>) -> (b: bool)
    ensures
        b == starts_with_ascii_lower(v@, p@),
{
    if p.len() > v.len() {
        return false;
    }
    let mut k: usize = 0;
    while k < p.len()
        invariant
            p.len() <= v.len(),
            k <= p.len(),
            forall|j: int| 0 <= j < k ==> ascii_lower_char(#[trigger] v@[j]) == p@[j],
        decreases p.len() - k,
    {
        if lower_char(v[k]) != p[k] {
            return false;
        }
        k += 1;
    }
    true
}

/// A string that differs from `q` at position `k` neither starts with `q` nor
/// equals it, whatever follows.
pub proof fn lemma_differs_at(p: Seq<char>, x: Seq<char>, q: Seq<char>, k: int)
    requires
        0 <= k < p.len(),
        k < q.len(),
        p[k] != q[k],
    ensures
        !starts_with(p + x, q),
        p + x != q,
{
    assert((p + x)[k] == p[k]);
    if starts_with(p + x, q) {
        assert((p + x).subrange(0, q.len() as int)[k] == q[k]);
    }
}

/// What starts with `q` still does when more text follows.
pub proof fn lemma_prefix_kept(p: Seq<char>, x: Seq<char>, q: Seq<char>)
    requires
        starts_with(p, q),
    ensures
        starts_with(p + x, q),
{
    assert((p + x).subrange(0, q.len() as int) =~= p.subrange(0, q.len() as int));
}

/// A string starts with itself.
pub proof fn lemma_starts_with_self(p: Seq<char>)
    ensures
        starts_with(p, p),
{
    assert(p.subrange(0, p.len() as int) =~= p);
}

/// `o` moved `n` positions on.
pub open spec fn shift(o: Option<int>, n: int) -> Option<int> {
    match o {
        Some(i) => Some(i + n),
        None => None,
    }
}

proof fn lemma_find_from_skip(p: Seq<char>, x: Seq<char>, c: char, i: int)
    requires
        0 <= i <= p.len(),
        forall|j: int| 0 <= j < p.len() ==> p[j] != c,
    ensures
        find_from(p + x, seq![c], i) == find_from(p + x, seq![c], p.len() as int),
    decreases p.len() - i,
{
    if i < p.len() {
        let s = p + x;
        assert(s[i] == p[i]);
        assert(!matches_at(s, seq![c], i)) by {
            if matches_at(s, seq![c], i) {
                assert(s.subrange(i, i + 1)[0] == s[i]);
            }
        }
        lemma_find_from_skip(p, x, c, i + 1);
    }
}

proof fn lemma_find_from_shift(p: Seq<char>, x: Seq<char>, c: char, j: int)
    requires
        0 <= j,
    ensures
        find_from(p + x, seq![c], p.len() + j) == shift(find_from(x, seq![c], j), p.len() as int),
    decreases x.len() - j,
{
    let s = p + x;
    let i = p.len() + j;
    if j + 1 > x.len() {
    } else {
        assert(s.subrange(i, i + 1) =~= x.subrange(j, j + 1)) by {
            assert(s[i] == x[j]);
        }
        if matches_at(x, seq![c], j) {
        } else {
            lemma_find_from_shift(p, x, c, j + 1);
        }
    }
}

/// Searching for a character that the first part lacks finds it in the
/// second part, moved on by the length of the first.
pub proof fn lemma_find_char_shift(p: Seq<char>, x: Seq<char>, c: char)
    requires
        forall|j: int| 0 <= j < p.len() ==> p[j] != c,
    ensures
        find(p + x, seq![c]) == shift(find(x, seq![c]), p.len() as int),
{
    lemma_find_from_skip(p, x, c, 0);
    lemma_find_from_shift(p, x, c, 0);
}

// ---------------------------------------------------------------------------
// Splitting
// ---------------------------------------------------------------------------

/// Pieces of `s` separated by the non-overlapping occurrences of `sep` found
/// from position `i` onwards, the current piece having started at `piece`.
pub open spec fn split_from(s: Seq<char>, sep: Seq<char>, piece: int, i: int) -> Seq<Seq<char>>
    decreases s.len() - i,
{
    if sep.len() == 0 || i < 0 || i + sep.len() > s.len() {
        seq![s.subrange(piece, s.len() as int)]
    } else if matches_at(s, sep, i) {
        seq![s.subrange(piece, i)] + split_from(s, sep, i + sep.len(), i + sep.len())
    } else {
        split_from(s, sep, piece, i + 1)
    }
}

/// `str::split` with a non-empty string separator: the pieces between the
/// leftmost non-overlapping occurrences of `sep`.
pub open spec fn split(s: Seq<char>, sep: Seq<char>) -> Seq<Seq<char>> {
    split_from(s, sep, 0, 0)
}

/// Splitting always gives at least one piece.
pub proof fn lemma_split_nonempty(s: Seq<char>, sep: Seq<char>, piece: int, i: int)
    ensures
        split_from(s, sep, piece, i).len() >= 1,
    decreases s.len() - i,
{
    if sep.len() == 0 || i < 0 || i + sep.len() > s.len() {
    } else if matches_at(s, sep, i) {
        lemma_split_nonempty(s, sep, i + sep.len(), i + sep.len());
    } else {
        lemma_split_nonempty(s, sep, piece, i + 1);
    }
}

/// The piece that starts at `piece` ends at the first separator found from
/// `i` on, at `j`.
pub(crate) proof fn lemma_split_next(s: Seq<char>, sep: Seq<char>, piece: int, i: int, j: int)
    requires
        sep.len() > 0,
        0 <= i <= j,
        matches_at(s, sep, j),
        forall|k: int| i <= k < j ==> !matches_at(s, sep, k),
    ensures
        split_from(s, sep, piece, i) == seq![s.subrange(piece, j)] + split_from(
            s,
            sep,
            j + sep.len(),
            j + sep.len(),
        ),
    decreases j - i,
{
    if i < j {
        assert(!matches_at(s, sep, i));
        lemma_split_next(s, sep, piece, i + 1, j);
    }
}

/// With no separator from `i` on, the piece that starts at `piece` is the
/// last one and runs to the end.
pub(crate) proof fn lemma_split_last(s: Seq<char>, sep: Seq<char>, piece: int, i: int)
    requires
        sep.len() > 0,
        0 <= i,
        forall|k: int| i <= k ==> !matches_at(s, sep, k),
    ensures
        split_from(s, sep, piece, i) == seq![s.subrange(piece, s.len() as int)],
    decreases s.len() - i,
{
    if i + sep.len() <= s.len() {
        assert(!matches_at(s, sep, i));
        lemma_split_last(s, sep, piece, i + 1);
    }
}

/// The first occurrence of `p` in `s` is at `j` when `p` occurs there and
/// nowhere before.
pub(crate) proof fn lemma_find_first(s: Seq<char>, p: Seq<char>, j: int)
    requires
        0 <= j,
        matches_at(s, p, j),
        forall|k: int| 0 <= k < j ==> !matches_at(s, p, k),
    ensures
        find(s, p) == Some(j),
{
    lemma_find_from(s, p, 0);
}

/// A one-character pattern occurs at `k` exactly when that character is there.
pub(crate) proof fn lemma_matches_char(s: Seq<char>, c: char, k: int)
    ensures
        matches_at(s, seq![c], k) <==> (0 <= k < s.len() && s[k] == c),
{
    if 0 <= k < s.len() && s[k] == c {
        assert(s.subrange(k, k + 1) =~= seq![c]);
    }
    if matches_at(s, seq![c], k) {
        assert(s.subrange(k, k + 1)[0] == s[k]);
    }
}

/// Text that neither starts nor ends with white space is its own trim.
pub(crate) proof fn lemma_trim_same(s: Seq<char>)
    requires
        s.len() == 0 || (!is_whitespace(s[0]) && !is_whitespace(s.last())),
    ensures
        trim(s) == s,
{
    lemma_strip_start(s, CharClass::Whitespace, 0);
    assert(s.skip(0) =~= s);
    lemma_strip_end(s, CharClass::Whitespace, s.len() as int);
    assert(s.take(s.len() as int) =~= s);
}

proof fn lemma_strip_start_keeps(s: Seq<char>, cls: CharClass, i: int) -> (k: int)
    requires
        0 <= i < s.len(),
        !in_class(cls, s[i]),
    ensures
        0 <= k <= i,
        strip_start(s, cls) == s.skip(k),
    decreases s.len(),
{
    if in_class(cls, s[0]) {
        let t = s.drop_first();
        assert(t[i - 1] == s[i]);
        let k1 = lemma_strip_start_keeps(t, cls, i - 1);
        assert(t.skip(k1) =~= s.skip(k1 + 1));
        k1 + 1
    } else {
        assert(s.skip(0) =~= s);
        0
    }
}

proof fn lemma_strip_end_keeps(s: Seq<char>, cls: CharClass, i: int) -> (k: int)
    requires
        0 <= i < s.len(),
        !in_class(cls, s[i]),
    ensures
        i < k <= s.len(),
        strip_end(s, cls) == s.take(k),
    decreases s.len(),
{
    if in_class(cls, s.last()) {
        let t = s.drop_last();
        assert(t[i] == s[i]);
        let k1 = lemma_strip_end_keeps(t, cls, i);
        assert(t.take(k1) =~= s.take(k1));
        k1
    } else {
        assert(s.take(s.len() as int) =~= s);
        s.len() as int
    }
}

/// Trimming keeps every character that is not white space.
pub(crate) proof fn lemma_trim_keeps(s: Seq<char>, i: int) -> (j: int)
    requires
        0 <= i < s.len(),
        !is_whitespace(s[i]),
    ensures
        0 <= j < trim(s).len(),
        trim(s)[j] == s[i],
{
    let a = lemma_strip_start_keeps(s, CharClass::Whitespace, i);
    let u = s.skip(a);
    assert(u[i - a] == s[i]);
    let z = lemma_strip_end_keeps(u, CharClass::Whitespace, i - a);
    assert(trim(s) == u.take(z));
    i - a
}

/// `str::split` (executable).
pub fn split_chars(v: &Vec<char>, sep: &Vec<char>) -> (r: Vec<Vec<char>>)
    requires
        sep.len() > 0,
    ensures
        r.deep_view() == split(v@, sep@),
{
    let mut out: Vec<Vec<char>> = Vec::new();
    let mut piece: usize = 0;
    let mut i: usize = 0;
    while i <= v.len() && sep.len() <= v.len() - i
        invariant
            0 < sep.len(),
            piece <= i <= v.len(),
            out.deep_view() + split_from(v@, sep@, piece as int, i as int) == split(v@, sep@),
        decreases v.len() - i,
    {
        if matches_at_chars(v, sep, i) {
            let part = subvec(v, piece, i);
            let ghost before = out.deep_view();
            assert(part.deep_view() =~= part@);
            out.push(part);
            assert(out.deep_view() =~= before.push(part@));
            assert(split_from(v@, sep@, piece as int, i as int) == seq![v@.subrange(
                piece as int,
                i as int,
            )] + split_from(v@, sep@, i + sep.len(), i + sep.len()));
            assert(before + split_from(v@, sep@, piece as int, i as int) =~= out.deep_view()
                + split_from(v@, sep@, i + sep.len(), i + sep.len()));
            i = i + sep.len();
            piece = i;
        } else {
            i += 1;
        }
    }
    let part = subvec(v, piece, v.len());
    let ghost before = out.deep_view();
    assert(part.deep_view() =~= part@);
    out.push(part);
    assert(out.deep_view() =~= before.push(part@));
    assert(out.deep_view() =~= before + split_from(v@, sep@, piece as int, i as int));
    out
}

/// `str::lines`: pieces ending in `'\n'` lose it and then one `'\r'`; a final
/// piece without `'\n'` is kept as it is; no empty piece follows a final `'\n'`.
pub open spec fn lines_from(s: Seq<char>, start: int, i: int) -> Seq<Seq<char>>
    decreases s.len() - i,
{
    if i < 0 || i >= s.len() {
        if 0 <= start < s.len() {
            seq![s.subrange(start, s.len() as int)]
        } else {
            seq![]
        }
    } else if s[i] == '\n' {
        seq![strip_cr(s.subrange(start, i))] + lines_from(s, i + 1, i + 1)
    } else {
        lines_from(s, start, i + 1)
    }
}

/// One trailing carriage return removed.
pub open spec fn strip_cr(s: Seq<char>) -> Seq<char> {
    if s.len() > 0 && s.last() == '\r' {
        s.drop_last()
    } else {
        s
    }
}

pub open spec fn lines(s: Seq<char>) -> Seq<Seq<char>> {
    lines_from(s, 0, 0)
}

/// `str::lines` (executable).
pub fn lines_chars(v: &Vec<char>) -> (r: Vec<Vec<char>>)
    ensures
        r.deep_view() == lines(v@),
{
    let mut out: Vec<Vec<char>> = Vec::new();
    let mut start: usize = 0;
    let mut i: usize = 0;
    while i < v.len()
        invariant
            start <= i <= v.len(),
            out.deep_view() + lines_from(v@, start as int, i as int) == lines(v@),
        decreases v.len() - i,
    {
        if v[i] == '\n' {
            let mut end = i;
            if end > start && v[end - 1] == '\r' {
                end = end - 1;
            }
            let part = subvec(v, start, end);
            proof {
                let whole = v@.subrange(start as int, i as int);
                assert(strip_cr(whole) =~= part@);
            }
            let ghost before = out.deep_view();
            assert(part.deep_view() =~= part@);
            out.push(part);
            assert(out.deep_view() =~= before.push(part@));
            assert(before + lines_from(v@, start as int, i as int) =~= out.deep_view()
                + lines_from(v@, i + 1, i + 1));
            i += 1;
            start = i;
        } else {
            i += 1;
        }
    }
    if start < v.len() {
        let part = subvec(v, start, v.len());
        let ghost before = out.deep_view();
        assert(part.deep_view() =~= part@);
        out.push(part);
        assert(out.deep_view() =~= before.push(part@));
        assert(out.deep_view() =~= before + lines_from(v@, start as int, i as int));
    } else {
        assert(out.deep_view() =~= out.deep_view() + lines_from(v@, start as int, i as int));
    }
    out
}

/// Every character equal to `from` replaced by `to` (`str::replace` with
/// one-character patterns).
pub open spec fn replace_char(s: Seq<char>, from: char, to: char) -> Seq<char> {
    Seq::new(s.len(), |i: int| if s[i] == from { to } else { s[i] })
}

pub fn replace_char_chars(v: &Vec<char>, from: char, to: char) -> (r: Vec<char>)
    ensures
        r@ == replace_char(v@, from, to),
{
    let mut r: Vec<char> = Vec::new();
    let mut i: usize = 0;
    while i < v.len()
        invariant
            i <= v.len(),
            r@ == replace_char(v@.take(i as int), from, to),
        decreases v.len() - i,
    {
        if v[i] == from {
            r.push(to);
        } else {
            r.push(v[i]);
        }
        i += 1;
        assert(r@ =~= replace_char(v@.take(i as int), from, to));
    }
    assert(v@.take(v.len() as int) =~= v@);
    r
}

/// The first position of character `c` in `v` (executable).
pub fn find_char(v: &Vec<char>, c: char) -> (r: Option<usize>)
    ensures
        r matches Some(j) ==> find(v@, seq![c]) == Some(j as int),
        r is None ==> find(v@, seq![c]) is None,
{
    let mut p: Vec<char> = Vec::new();
    p.push(c);
    assert(p@ =~= seq![c]);
    find_chars(v, &p)
}

/// Equality of two character vectors (executable).
pub fn eq_chars(a: &Vec<char>, b: &Vec<char>) -> (r: bool)
    ensures
        r == (a@ == b@),
{
    if a.len() != b.len() {
        return false;
    }
    let r = matches_at_chars(a, b, 0);
    assert(a@.subrange(0, b@.len() as int) =~= a@);
    r
}

/// Equality of a character vector with a string (executable).
pub fn eq_str(a: &Vec<char>, s: &str) -> (r: bool)
    ensures
        r == (a@ == s@),
{
    let b = chars_of(s);
    eq_chars(a, &b)
}

/// `str::starts_with` against a string (executable).
pub fn starts_with_str(a: &Vec<char>, s: &str) -> (r: bool)
    ensures
        r == starts_with(a@, s@),
{
    let b = chars_of(s);
    starts_with_chars(a, &b)
}

/// Appends the characters of `s` to `out`.
pub fn push_str(out: &mut Vec<char>, s: &str)
    ensures
        final(out)@ == old(out)@ + s@,
{
    let b = chars_of(s);
    push_all(out, &b);
}

/// Appends the characters of `b` to `out`.
pub fn push_all(out: &mut Vec<char>, b: &Vec<char>)
    ensures
        final(out)@ == old(out)@ + b@,
{
    let ghost start = out@;
    let mut i: usize = 0;
    while i < b.len()
        invariant
            i <= b.len(),
            out@ == start + b@.take(i as int),
        decreases b.len() - i,
    {
        out.push(b[i]);
        i += 1;
        assert(out@ =~= start + b@.take(i as int));
    }
    assert(b@.take(b.len() as int) =~= b@);
}

} // verus!
