//! Text as sequences of characters.
//!
//! A `str` is seen as the sequence of its characters; the functions here cut,
//! search and build such sequences. Executable code works on `[char]` slices
//! and turns the outcome back into a `String`.

use vstd::prelude::*;
use vstd::slice::slice_subrange;

verus! {

/// Specification of std's `String::push`: the string grows by one character at
/// its end.
pub assume_specification[ String::push ](s: &mut String, ch: char)
    ensures
        final(s)@ == old(s)@.push(ch),
;

// ---------------------------------------------------------------------------
// Conversions
// ---------------------------------------------------------------------------

/// The characters of a string.
pub fn chars_of(s: &str) -> (v: Vec<char>)
    ensures
        v@ == s@,
{
    let mut v: Vec<char> = Vec::new();
    for c in iter: s.chars()
        invariant
            v@ == iter.seq().take(iter.index() as int),
            iter.seq() == s@,
    {
        v.push(c);
    }
    v
}

/// The string made of some characters.
pub fn string_of(cs: &[char]) -> (s: String)
    ensures
        s@ == cs@,
{
    let mut s = String::new();
    for i in 0..cs.len()
        invariant
            s@ == cs@.take(i as int),
    {
        s.push(cs[i]);
    }
    s
}

/// A copy of some characters.
pub fn copied(cs: &[char]) -> (v: Vec<char>)
    ensures
        v@ == cs@,
{
    let mut v: Vec<char> = Vec::new();
    for i in 0..cs.len()
        invariant
            v@ == cs@.take(i as int),
    {
        v.push(cs[i]);
    }
    v
}

/// Whether two character slices hold the same characters.
pub fn same_chars(a: &[char], b: &[char]) -> (r: bool)
    ensures
        r == (a@ == b@),
{
    if a.len() != b.len() {
        return false;
    }
    for i in 0..a.len()
        invariant
            a@.len() == b@.len(),
            a@.take(i as int) =~= b@.take(i as int),
    {
        if a[i] != b[i] {
            return false;
        }
        assert(a@.take(i + 1) =~= a@.take(i as int).push(a@[i as int]));
        assert(b@.take(i + 1) =~= b@.take(i as int).push(b@[i as int]));
    }
    assert(a@.take(a@.len() as int) =~= a@);
    assert(b@.take(b@.len() as int) =~= b@);
    true
}

/// Whether two strings hold the same characters.
pub fn same(a: &str, b: &str) -> (r: bool)
    ensures
        r == (a@ == b@),
{
    let x = chars_of(a);
    let y = chars_of(b);
    same_chars(x.as_slice(), y.as_slice())
}

/// The view of an optional string.
pub open spec fn opt_view(s: Option<String>) -> Option<Seq<char>> {
    match s {
        Some(x) => Some(x@),
        None => None,
    }
}

/// The view of an optional string slice.
pub open spec fn opt_str_view(s: Option<&str>) -> Option<Seq<char>> {
    match s {
        Some(x) => Some(x@),
        None => None,
    }
}

/// A copy of an optional string.
pub fn clone_opt(s: &Option<String>) -> (r: Option<String>)
    ensures
        opt_view(r) == opt_view(*s),
        r == *s,
{
    match s {
        Some(x) => Some(x.clone()),
        None => None,
    }
}

/// Copies of a list of strings.
pub fn clone_all(list: &Vec<String>) -> (r: Vec<String>)
    ensures
        r@ == list@,
{
    let mut r: Vec<String> = Vec::new();
    for i in 0..list.len()
        invariant
            r@ == list@.take(i as int),
    {
        r.push(list[i].clone());
    }
    r
}

/// The texts of a list of strings.
pub open spec fn texts(list: Seq<String>) -> Seq<Seq<char>> {
    list.map_values(|s: String| s@)
}

/// Adds a text to a list.
pub fn push_text(list: &mut Vec<String>, s: &str)
    ensures
        texts(final(list)@) == texts(old(list)@).push(s@),
{
    let ghost before = list@;
    list.push(String::from_str(s));
    assert(texts(list@) =~= texts(before).push(s@));
}

// ---------------------------------------------------------------------------
// Order
// ---------------------------------------------------------------------------

/// `a` comes before `b` in the order of their characters, compared from the left;
/// a text comes before its continuations.
pub open spec fn text_below(a: Seq<char>, b: Seq<char>) -> bool
    decreases a.len(),
{
    if b.len() == 0 {
        false
    } else if a.len() == 0 {
        true
    } else if a[0] != b[0] {
        a[0] < b[0]
    } else {
        text_below(a.skip(1), b.skip(1))
    }
}

/// The order of texts is one.
pub proof fn lemma_text_order(a: Seq<char>, b: Seq<char>, c: Seq<char>)
    ensures
        text_below(a, b) ==> !text_below(b, a),
        text_below(a, b) && !text_below(c, b) ==> text_below(a, c),
        !text_below(a, b) && !text_below(b, a) ==> a == b,
    decreases a.len(),
{
    if a.len() > 0 && b.len() > 0 {
        let c1 = if c.len() > 0 {
            c.skip(1)
        } else {
            c
        };
        lemma_text_order(a.skip(1), b.skip(1), c1);
        if a[0] == b[0] && a.skip(1) == b.skip(1) {
            assert(a =~= seq![a[0]] + a.skip(1));
            assert(b =~= seq![b[0]] + b.skip(1));
        }
    } else if a.len() == 0 && b.len() == 0 {
        assert(a =~= b);
    }
}

/// `text_below`, computed.
pub fn is_text_below(a: &[char], b: &[char]) -> (r: bool)
    ensures
        r == text_below(a@, b@),
{
    let mut i: usize = 0;
    assert(a@.skip(0) =~= a@);
    assert(b@.skip(0) =~= b@);
    loop
        invariant
            i <= a@.len(),
            i <= b@.len(),
            text_below(a@, b@) == text_below(a@.skip(i as int), b@.skip(i as int)),
        decreases a@.len() - i,
    {
        if i == b.len() {
            return false;
        }
        if i == a.len() {
            return true;
        }
        if a[i] != b[i] {
            return a[i] < b[i];
        }
        assert(a@.skip(i as int).skip(1) =~= a@.skip(i + 1));
        assert(b@.skip(i as int).skip(1) =~= b@.skip(i + 1));
        i = i + 1;
    }
}

// ---------------------------------------------------------------------------
// Character classes
// ---------------------------------------------------------------------------

/// The characters with the Unicode property White_Space.
pub open spec fn is_space(c: char) -> bool {
    ||| 0x9 <= c as int <= 0xd
    ||| c as int == 0x20
    ||| c as int == 0x85
    ||| c as int == 0xa0
    ||| c as int == 0x1680
    ||| 0x2000 <= c as int <= 0x200a
    ||| c as int == 0x2028
    ||| c as int == 0x2029
    ||| c as int == 0x202f
    ||| c as int == 0x205f
    ||| c as int == 0x3000
}

/// Whether a character is white space.
pub fn space(c: char) -> (r: bool)
    ensures
        r == is_space(c),
{
    let u: u32 = c as u32;
    (0x9 <= u && u <= 0xd) || u == 0x20 || u == 0x85 || u == 0xa0 || u == 0x1680 || (0x2000 <= u
        && u <= 0x200a) || u == 0x2028 || u == 0x2029 || u == 0x202f || u == 0x205f || u == 0x3000
}

/// The characters of the Unicode category Cc (control).
pub open spec fn is_control(c: char) -> bool {
    (c as int) <= 0x1f || 0x7f <= c as int <= 0x9f
}

/// Whether a character is a control character.
pub fn control(c: char) -> (r: bool)
    ensures
        r == is_control(c),
{
    let u: u32 = c as u32;
    u <= 0x1f || (0x7f <= u && u <= 0x9f)
}

/// The ASCII digits.
pub open spec fn is_digit(c: char) -> bool {
    '0' <= c && c <= '9'
}

/// The ASCII letters and digits.
pub open spec fn is_alnum(c: char) -> bool {
    is_digit(c) || ('a' <= c && c <= 'z') || ('A' <= c && c <= 'Z')
}

/// Whether a character is an ASCII digit.
pub fn digit(c: char) -> (r: bool)
    ensures
        r == is_digit(c),
{
    '0' <= c && c <= '9'
}

/// Whether a character is an ASCII letter or digit.
pub fn alnum(c: char) -> (r: bool)
    ensures
        r == is_alnum(c),
{
    digit(c) || ('a' <= c && c <= 'z') || ('A' <= c && c <= 'Z')
}

/// An ASCII letter in upper case; any other character unchanged.
pub open spec fn upper_char(c: char) -> char {
    if 'a' <= c && c <= 'z' {
        (c as u8 - 32) as char
    } else {
        c
    }
}

/// An ASCII letter in lower case; any other character unchanged.
pub open spec fn lower_char(c: char) -> char {
    if 'A' <= c && c <= 'Z' {
        (c as u8 + 32) as char
    } else {
        c
    }
}

/// A text with its ASCII letters in upper case.
pub open spec fn upper(s: Seq<char>) -> Seq<char> {
    s.map_values(|c: char| upper_char(c))
}

/// A text with its ASCII letters in lower case.
pub open spec fn lower(s: Seq<char>) -> Seq<char> {
    s.map_values(|c: char| lower_char(c))
}

/// `upper`, computed.
pub fn to_upper(s: &[char]) -> (r: Vec<char>)
    ensures
        r@ == upper(s@),
{
    let mut r: Vec<char> = Vec::new();
    for i in 0..s.len()
        invariant
            r@ == upper(s@.take(i as int)),
    {
        let c = s[i];
        let u: char = if 'a' <= c && c <= 'z' {
            (c as u8 - 32) as char
        } else {
            c
        };
        r.push(u);
        assert(upper(s@.take(i + 1)) =~= upper(s@.take(i as int)).push(upper_char(s@[i as int])));
    }
    assert(s@.take(s@.len() as int) =~= s@);
    r
}

/// `lower`, computed.
pub fn to_lower(s: &[char]) -> (r: Vec<char>)
    ensures
        r@ == lower(s@),
{
    let mut r: Vec<char> = Vec::new();
    for i in 0..s.len()
        invariant
            r@ == lower(s@.take(i as int)),
    {
        let c = s[i];
        let u: char = if 'A' <= c && c <= 'Z' {
            (c as u8 + 32) as char
        } else {
            c
        };
        r.push(u);
        assert(lower(s@.take(i + 1)) =~= lower(s@.take(i as int)).push(lower_char(s@[i as int])));
    }
    assert(s@.take(s@.len() as int) =~= s@);
    r
}

/// All characters are ASCII.
pub open spec fn is_ascii_text(s: Seq<char>) -> bool {
    forall|i: int| 0 <= i < s.len() ==> (#[trigger] s[i]) as int <= 0x7f
}

/// A text in lower case, as Unicode has it.
pub uninterp spec fn lowercase(s: Seq<char>) -> Seq<char>;

/// Calls std's `str::to_lowercase`. The outcome is the one named `lowercase`; of
/// an ASCII text it is the text with its ASCII letters in lower case.
#[verifier::external_body]
pub(crate) fn to_lowercase(s: &str) -> (r: String)
    ensures
        r@ == lowercase(s@),
        is_ascii_text(s@) ==> r@ == lower(s@),
{
    s.to_lowercase()
}

// ---------------------------------------------------------------------------
// Trimming
// ---------------------------------------------------------------------------

/// What is left of `s` once the leading characters that satisfy `p` are gone.
pub open spec fn skip_while(s: Seq<char>, p: spec_fn(char) -> bool) -> Seq<char>
    decreases s.len(),
{
    if s.len() > 0 && p(s[0]) {
        skip_while(s.skip(1), p)
    } else {
        s
    }
}

/// What is left of `s` once the trailing characters that satisfy `p` are gone.
pub open spec fn drop_while(s: Seq<char>, p: spec_fn(char) -> bool) -> Seq<char>
    decreases s.len(),
{
    if s.len() > 0 && p(s.last()) {
        drop_while(s.drop_last(), p)
    } else {
        s
    }
}

/// The predicate "is white space".
pub open spec fn spaces() -> spec_fn(char) -> bool {
    |c: char| is_space(c)
}

/// The predicate "is one of these characters".
pub open spec fn one_of(set: Seq<char>) -> spec_fn(char) -> bool {
    |c: char| set.contains(c)
}

/// A text without leading and trailing white space.
pub open spec fn trim(s: Seq<char>) -> Seq<char> {
    drop_while(skip_while(s, spaces()), spaces())
}

/// Dropping at the start leaves an end of the text that does not begin so.
pub proof fn lemma_skip_while(s: Seq<char>, p: spec_fn(char) -> bool)
    ensures
        skip_while(s, p).len() <= s.len(),
        skip_while(s, p) == s.skip(s.len() - skip_while(s, p).len()),
        skip_while(s, p).len() > 0 ==> !p(skip_while(s, p)[0]),
    decreases s.len(),
{
    if s.len() > 0 && p(s[0]) {
        lemma_skip_while(s.skip(1), p);
        let n = skip_while(s, p).len();
        assert(s.skip(1).skip(s.skip(1).len() - n) =~= s.skip(s.len() - n));
    } else {
        assert(s.skip(0) =~= s);
    }
}

/// Dropping at the end leaves a start of the text that does not end so.
pub proof fn lemma_drop_while(s: Seq<char>, p: spec_fn(char) -> bool)
    ensures
        drop_while(s, p).len() <= s.len(),
        drop_while(s, p) == s.take(drop_while(s, p).len() as int),
        drop_while(s, p).len() > 0 ==> !p(drop_while(s, p).last()),
    decreases s.len(),
{
    if s.len() > 0 && p(s.last()) {
        lemma_drop_while(s.drop_last(), p);
        let n = drop_while(s, p).len() as int;
        assert(s.drop_last().take(n) =~= s.take(n));
    } else {
        assert(s.take(s.len() as int) =~= s);
    }
}

/// A trimmed text is no longer than before and has no white space at its ends.
pub proof fn lemma_trim(s: Seq<char>)
    ensures
        trim(s).len() <= s.len(),
        trim(s).len() > 0 ==> !is_space(trim(s)[0]) && !is_space(trim(s).last()),
{
    lemma_skip_while(s, spaces());
    lemma_drop_while(skip_while(s, spaces()), spaces());
}

/// Whether `set` holds `c`.
pub fn holds(set: &[char], c: char) -> (r: bool)
    ensures
        r == set@.contains(c),
{
    for i in 0..set.len()
        invariant
            forall|j: int| 0 <= j < i ==> set@[j] != c,
    {
        if set[i] == c {
            return true;
        }
    }
    false
}

/// Drops the leading characters that are in `set`.
pub fn skip_set<'a>(s: &'a [char], set: &[char]) -> (r: &'a [char])
    ensures
        r@ == skip_while(s@, one_of(set@)),
{
    let mut i: usize = 0;
    assert(s@.skip(0) =~= s@);
    while i < s.len() && holds(set, s[i])
        invariant
            i <= s@.len(),
            skip_while(s@, one_of(set@)) == skip_while(s@.skip(i as int), one_of(set@)),
        decreases s@.len() - i,
    {
        assert(s@.skip(i as int).skip(1) =~= s@.skip(i + 1));
        i = i + 1;
    }
    assert(s@.skip(i as int) =~= s@.subrange(i as int, s@.len() as int));
    slice_subrange(s, i, s.len())
}

/// Drops the trailing characters that are in `set`.
pub fn drop_set<'a>(s: &'a [char], set: &[char]) -> (r: &'a [char])
    ensures
        r@ == drop_while(s@, one_of(set@)),
{
    let mut n: usize = s.len();
    assert(s@.take(s@.len() as int) =~= s@);
    while n > 0 && holds(set, s[n - 1])
        invariant
            n <= s@.len(),
            drop_while(s@, one_of(set@)) == drop_while(s@.take(n as int), one_of(set@)),
        decreases n,
    {
        assert(s@.take(n as int).drop_last() =~= s@.take(n - 1));
        n = n - 1;
    }
    assert(s@.take(n as int) =~= s@.subrange(0, n as int));
    slice_subrange(s, 0, n)
}

/// Drops leading white space.
pub fn skip_spaces<'a>(s: &'a [char]) -> (r: &'a [char])
    ensures
        r@ == skip_while(s@, spaces()),
{
    let mut i: usize = 0;
    assert(s@.skip(0) =~= s@);
    while i < s.len() && space(s[i])
        invariant
            i <= s@.len(),
            skip_while(s@, spaces()) == skip_while(s@.skip(i as int), spaces()),
        decreases s@.len() - i,
    {
        assert(s@.skip(i as int).skip(1) =~= s@.skip(i + 1));
        i = i + 1;
    }
    assert(s@.skip(i as int) =~= s@.subrange(i as int, s@.len() as int));
    slice_subrange(s, i, s.len())
}

/// Drops trailing white space.
pub fn drop_spaces<'a>(s: &'a [char]) -> (r: &'a [char])
    ensures
        r@ == drop_while(s@, spaces()),
{
    let mut n: usize = s.len();
    assert(s@.take(s@.len() as int) =~= s@);
    while n > 0 && space(s[n - 1])
        invariant
            n <= s@.len(),
            drop_while(s@, spaces()) == drop_while(s@.take(n as int), spaces()),
        decreases n,
    {
        assert(s@.take(n as int).drop_last() =~= s@.take(n - 1));
        n = n - 1;
    }
    assert(s@.take(n as int) =~= s@.subrange(0, n as int));
    slice_subrange(s, 0, n)
}

/// `trim`, computed.
pub fn trimmed<'a>(s: &'a [char]) -> (r: &'a [char])
    ensures
        r@ == trim(s@),
{
    drop_spaces(skip_spaces(s))
}

// ---------------------------------------------------------------------------
// Searching
// ---------------------------------------------------------------------------

/// `pat` stands in `s` at index `i`.
pub open spec fn occurs_at(s: Seq<char>, pat: Seq<char>, i: int) -> bool {
    0 <= i && i + pat.len() <= s.len() && s.subrange(i, i + pat.len()) == pat
}

/// `pat` stands somewhere in `s`.
pub open spec fn occurs(s: Seq<char>, pat: Seq<char>) -> bool {
    exists|i: int| occurs_at(s, pat, i)
}

/// `s` begins with `pat`.
pub open spec fn begins(s: Seq<char>, pat: Seq<char>) -> bool {
    occurs_at(s, pat, 0)
}

/// `s` ends with `pat`.
pub open spec fn ends(s: Seq<char>, pat: Seq<char>) -> bool {
    occurs_at(s, pat, s.len() - pat.len())
}

/// `i` is the first index at which `pat` stands in `s`.
pub open spec fn first_at(s: Seq<char>, pat: Seq<char>, i: int) -> bool {
    occurs_at(s, pat, i) && forall|j: int| 0 <= j < i ==> !occurs_at(s, pat, j)
}

/// `i` is the last index at which `pat` stands in `s`.
pub open spec fn last_at(s: Seq<char>, pat: Seq<char>, i: int) -> bool {
    occurs_at(s, pat, i) && forall|j: int| i < j ==> !occurs_at(s, pat, j)
}

/// Whether `pat` stands in `s` at index `i`.
pub fn stands_at(s: &[char], pat: &[char], i: usize) -> (r: bool)
    ensures
        r == occurs_at(s@, pat@, i as int),
{
    if i > s.len() || pat.len() > s.len() - i {
        return false;
    }
    same_chars(slice_subrange(s, i, i + pat.len()), pat)
}

/// The first index at which `pat` stands in `s`.
pub fn find(s: &[char], pat: &[char]) -> (r: Option<usize>)
    ensures
        match r {
            Some(i) => first_at(s@, pat@, i as int),
            None => !occurs(s@, pat@),
        },
{
    let mut i: usize = 0;
    while i < s.len()
        invariant
            i <= s@.len(),
            forall|j: int| 0 <= j < i ==> !occurs_at(s@, pat@, j),
        decreases s@.len() - i,
    {
        if stands_at(s, pat, i) {
            return Some(i);
        }
        i = i + 1;
    }
    if stands_at(s, pat, i) {
        return Some(i);
    }
    None
}

/// The last index at which `pat` stands in `s`.
pub fn find_last(s: &[char], pat: &[char]) -> (r: Option<usize>)
    ensures
        match r {
            Some(i) => last_at(s@, pat@, i as int),
            None => !occurs(s@, pat@),
        },
{
    let mut i: usize = s.len();
    while i > 0
        invariant
            i <= s@.len(),
            forall|j: int| i < j ==> !occurs_at(s@, pat@, j),
        decreases i,
    {
        if stands_at(s, pat, i) {
            return Some(i);
        }
        i = i - 1;
    }
    if stands_at(s, pat, 0) {
        return Some(0);
    }
    None
}

/// Whether `pat` stands somewhere in `s`.
pub fn contains(s: &[char], pat: &[char]) -> (r: bool)
    ensures
        r == occurs(s@, pat@),
{
    find(s, pat).is_some()
}

/// Whether `pat` stands somewhere in `s`.
pub fn str_contains(s: &str, pat: &str) -> (r: bool)
    ensures
        r == occurs(s@, pat@),
{
    let x = chars_of(s);
    let y = chars_of(pat);
    contains(x.as_slice(), y.as_slice())
}

/// Whether `s` begins with `pat`.
pub fn starts_with(s: &[char], pat: &str) -> (r: bool)
    ensures
        r == begins(s@, pat@),
{
    let p = chars_of(pat);
    stands_at(s, p.as_slice(), 0)
}

/// Whether `s` begins with `pat`.
pub fn str_starts_with(s: &str, pat: &str) -> (r: bool)
    ensures
        r == begins(s@, pat@),
{
    let x = chars_of(s);
    starts_with(x.as_slice(), pat)
}

/// Whether `s` ends with `pat`.
pub fn ends_with(s: &[char], pat: &str) -> (r: bool)
    ensures
        r == ends(s@, pat@),
{
    let p = chars_of(pat);
    if p.len() > s.len() {
        return false;
    }
    stands_at(s, p.as_slice(), s.len() - p.len())
}

// ---------------------------------------------------------------------------
// Cutting into pieces
// ---------------------------------------------------------------------------

/// The pieces of `s` between the characters of `set`: each such character ends
/// one piece and begins the next.
pub open spec fn split(s: Seq<char>, set: Seq<char>) -> Seq<Seq<char>>
    decreases s.len(),
{
    if s.len() == 0 {
        seq![Seq::empty()]
    } else {
        let front = split(s.drop_last(), set);
        if set.contains(s.last()) {
            front.push(Seq::empty())
        } else {
            front.drop_last().push(front.last().push(s.last()))
        }
    }
}

/// The views of a list of character vectors.
pub open spec fn pieces_view(v: Seq<Vec<char>>) -> Seq<Seq<char>> {
    v.map_values(|p: Vec<char>| p@)
}

/// `split`, computed.
pub fn pieces(s: &[char], set: &[char]) -> (r: Vec<Vec<char>>)
    ensures
        pieces_view(r@) == split(s@, set@),
        r@.len() > 0,
{
    let mut done: Vec<Vec<char>> = Vec::new();
    let mut open: Vec<char> = Vec::new();
    assert(pieces_view(done@).push(open@) =~= split(s@.take(0), set@));
    for i in 0..s.len()
        invariant
            pieces_view(done@).push(open@) == split(s@.take(i as int), set@),
    {
        proof {
            assert(s@.take(i + 1).drop_last() =~= s@.take(i as int));
            let front = split(s@.take(i as int), set@);
            assert(front.drop_last() =~= pieces_view(done@));
            assert(front.last() == open@);
        }
        let ghost before = done@;
        let c = s[i];
        if holds(set, c) {
            done.push(open);
            open = Vec::new();
            assert(pieces_view(done@) =~= pieces_view(before).push(before_last(done@)));
            assert(pieces_view(done@).push(open@) =~= split(s@.take(i + 1), set@));
        } else {
            open.push(c);
            assert(pieces_view(done@).push(open@) =~= split(s@.take(i + 1), set@));
        }
    }
    assert(s@.take(s@.len() as int) =~= s@);
    let ghost before = done@;
    done.push(open);
    assert(pieces_view(done@) =~= pieces_view(before).push(before_last(done@)));
    done
}

/// The last character vector of a list, as a text.
spec fn before_last(v: Seq<Vec<char>>) -> Seq<char> {
    v.last()@
}

/// What occurs has a first place.
pub proof fn lemma_first_exists(s: Seq<char>, pat: Seq<char>, i: int)
    requires
        occurs_at(s, pat, i),
    ensures
        exists|k: int| first_at(s, pat, k),
    decreases i,
{
    if exists|j: int| 0 <= j < i && occurs_at(s, pat, j) {
        let j = choose|j: int| 0 <= j < i && occurs_at(s, pat, j);
        lemma_first_exists(s, pat, j);
    } else {
        assert(first_at(s, pat, i));
    }
}

/// Two first occurrences are the same.
pub proof fn lemma_first_unique(s: Seq<char>, pat: Seq<char>, i: int, j: int)
    requires
        first_at(s, pat, i),
        first_at(s, pat, j),
    ensures
        i == j,
{
    if i < j {
        assert(!occurs_at(s, pat, i));
    } else if j < i {
        assert(!occurs_at(s, pat, j));
    }
}

/// Two last occurrences are the same.
pub proof fn lemma_last_unique(s: Seq<char>, pat: Seq<char>, i: int, j: int)
    requires
        last_at(s, pat, i),
        last_at(s, pat, j),
    ensures
        i == j,
{
    if i < j {
        assert(!occurs_at(s, pat, j));
    } else if j < i {
        assert(!occurs_at(s, pat, i));
    }
}

/// What stands before the first `pat` and what stands after it, if there is one.
pub open spec fn cut(s: Seq<char>, pat: Seq<char>) -> Option<(Seq<char>, Seq<char>)> {
    if occurs(s, pat) {
        let i = choose|i: int| first_at(s, pat, i);
        Some((s.take(i), s.skip(i + pat.len())))
    } else {
        None
    }
}

/// `cut`, computed.
pub fn split_once<'a>(s: &'a [char], pat: &[char]) -> (r: Option<(&'a [char], &'a [char])>)
    ensures
        match r {
            Some((a, b)) => cut(s@, pat@) == Some((a@, b@)),
            None => cut(s@, pat@) is None,
        },
{
    match find(s, pat) {
        Some(i) => {
            proof {
                assert(occurs_at(s@, pat@, i as int));
                let k = choose|k: int| first_at(s@, pat@, k);
                lemma_first_unique(s@, pat@, i as int, k);
                assert(s@.take(i as int) =~= s@.subrange(0, i as int));
                assert(s@.skip(i + pat@.len()) =~= s@.subrange(i + pat@.len(), s@.len() as int));
            }
            let n = s.len();
            Some((slice_subrange(s, 0, i), slice_subrange(s, i + pat.len(), n)))
        },
        None => None,
    }
}

/// The text before the first `pat`, or all of it.
pub open spec fn head_of(s: Seq<char>, pat: Seq<char>) -> Seq<char> {
    match cut(s, pat) {
        Some((a, _)) => a,
        None => s,
    }
}

/// `head_of`, computed.
pub fn before<'a>(s: &'a [char], pat: &[char]) -> (r: &'a [char])
    ensures
        r@ == head_of(s@, pat@),
{
    match split_once(s, pat) {
        Some((a, _)) => a,
        None => s,
    }
}

/// The text behind the last `pat`, or all of it.
pub open spec fn tail_of(s: Seq<char>, pat: Seq<char>) -> Seq<char> {
    if occurs(s, pat) {
        s.skip((choose|i: int| last_at(s, pat, i)) + pat.len())
    } else {
        s
    }
}

/// `tail_of`, computed.
pub fn after_last<'a>(s: &'a [char], pat: &[char]) -> (r: &'a [char])
    ensures
        r@ == tail_of(s@, pat@),
{
    match find_last(s, pat) {
        Some(i) => {
            proof {
                let k = choose|k: int| last_at(s@, pat@, k);
                lemma_last_unique(s@, pat@, i as int, k);
                assert(s@.skip(i + pat@.len()) =~= s@.subrange(i + pat@.len(), s@.len() as int));
            }
            let n = s.len();
            slice_subrange(s, i + pat.len(), n)
        },
        None => s,
    }
}

/// What is left of `s` once every `pat` that it begins with is gone.
pub open spec fn strip_start(s: Seq<char>, pat: Seq<char>) -> Seq<char>
    decreases s.len(),
{
    if pat.len() > 0 && begins(s, pat) {
        strip_start(s.skip(pat.len() as int), pat)
    } else {
        s
    }
}

/// What is left of `s` once every `pat` that it ends with is gone.
pub open spec fn strip_end(s: Seq<char>, pat: Seq<char>) -> Seq<char>
    decreases s.len(),
{
    if pat.len() > 0 && ends(s, pat) {
        strip_end(s.take(s.len() - pat.len()), pat)
    } else {
        s
    }
}

/// `strip_start`, computed.
pub fn stripped_start<'a>(s: &'a [char], pat: &[char]) -> (r: &'a [char])
    ensures
        r@ == strip_start(s@, pat@),
    decreases s@.len(),
{
    if pat.len() > 0 && stands_at(s, pat, 0) {
        assert(s@.skip(pat@.len() as int) =~= s@.subrange(pat@.len() as int, s@.len() as int));
        stripped_start(slice_subrange(s, pat.len(), s.len()), pat)
    } else {
        s
    }
}

/// `strip_end`, computed.
pub fn stripped_end<'a>(s: &'a [char], pat: &[char]) -> (r: &'a [char])
    ensures
        r@ == strip_end(s@, pat@),
    decreases s@.len(),
{
    if pat.len() > 0 && pat.len() <= s.len() && stands_at(s, pat, s.len() - pat.len()) {
        assert(s@.take(s@.len() - pat@.len()) =~= s@.subrange(0, s@.len() - pat@.len()));
        stripped_end(slice_subrange(s, 0, s.len() - pat.len()), pat)
    } else {
        s
    }
}

/// What follows `pat` in a text that begins with it.
pub open spec fn without_prefix(s: Seq<char>, pat: Seq<char>) -> Option<Seq<char>> {
    if begins(s, pat) {
        Some(s.skip(pat.len() as int))
    } else {
        None
    }
}

/// `without_prefix`, computed.
pub fn strip_prefix<'a>(s: &'a [char], pat: &str) -> (r: Option<&'a [char]>)
    ensures
        match r {
            Some(t) => without_prefix(s@, pat@) == Some(t@),
            None => without_prefix(s@, pat@) is None,
        },
{
    let p = chars_of(pat);
    if stands_at(s, p.as_slice(), 0) {
        assert(s@.skip(p@.len() as int) =~= s@.subrange(p@.len() as int, s@.len() as int));
        Some(slice_subrange(s, p.len(), s.len()))
    } else {
        None
    }
}

/// The predicate "is not white space".
pub open spec fn non_spaces() -> spec_fn(char) -> bool {
    |c: char| !is_space(c)
}

/// The first white-space separated word of `s`, empty if there is none.
pub open spec fn word(s: Seq<char>) -> Seq<char> {
    let t = skip_while(s, spaces());
    t.take(t.len() - skip_while(t, non_spaces()).len())
}

/// What follows the first white-space separated word of `s`.
pub open spec fn after_word(s: Seq<char>) -> Seq<char> {
    skip_while(skip_while(s, spaces()), non_spaces())
}

/// The first word and what follows it.
pub fn next_word<'a>(s: &'a [char]) -> (r: (&'a [char], &'a [char]))
    ensures
        r.0@ == word(s@),
        r.1@ == after_word(s@),
{
    let t = skip_spaces(s);
    let mut i: usize = 0;
    assert(t@.skip(0) =~= t@);
    while i < t.len() && !space(t[i])
        invariant
            i <= t@.len(),
            skip_while(t@, non_spaces()) == skip_while(t@.skip(i as int), non_spaces()),
        decreases t@.len() - i,
    {
        assert(t@.skip(i as int).skip(1) =~= t@.skip(i + 1));
        i = i + 1;
    }
    assert(t@.skip(i as int) =~= t@.subrange(i as int, t@.len() as int));
    assert(t@.take(i as int) =~= t@.subrange(0, i as int));
    (slice_subrange(t, 0, i), slice_subrange(t, i, t.len()))
}

// ---------------------------------------------------------------------------
// Decimal numbers
// ---------------------------------------------------------------------------

/// The character of a decimal digit.
pub open spec fn digit_char(d: int) -> char {
    ('0' as int + d) as char
}

/// The value of a decimal digit.
pub open spec fn digit_value(c: char) -> nat {
    (c as int - '0' as int) as nat
}

/// The decimal digits of a number, without leading zeros.
pub open spec fn decimal(n: nat) -> Seq<char>
    decreases n,
{
    if n < 10 {
        seq![digit_char(n as int)]
    } else {
        decimal(n / 10).push(digit_char((n % 10) as int))
    }
}

/// The number that some decimal digits stand for.
pub open spec fn digits_value(s: Seq<char>) -> nat
    decreases s.len(),
{
    if s.len() == 0 {
        0
    } else {
        digits_value(s.drop_last()) * 10 + digit_value(s.last())
    }
}

/// All characters are decimal digits.
pub open spec fn all_digits(s: Seq<char>) -> bool {
    forall|i: int| 0 <= i < s.len() ==> is_digit(#[trigger] s[i])
}

/// Reading back the digits of a number gives the number.
pub proof fn lemma_decimal_value(n: nat)
    ensures
        digits_value(decimal(n)) == n,
        all_digits(decimal(n)),
        decimal(n).len() > 0,
    decreases n,
{
    reveal_with_fuel(digits_value, 2);
    if n < 10 {
        assert(decimal(n).drop_last() =~= Seq::<char>::empty());
    } else {
        lemma_decimal_value(n / 10);
        assert(decimal(n).drop_last() =~= decimal(n / 10));
    }
}

/// Different numbers have different digits.
pub proof fn lemma_decimal_injective(a: nat, b: nat)
    requires
        decimal(a) == decimal(b),
    ensures
        a == b,
{
    lemma_decimal_value(a);
    lemma_decimal_value(b);
}

/// Appends the decimal digits of `n`.
fn push_decimal(out: &mut String, n: u128)
    ensures
        final(out)@ == old(out)@ + decimal(n as nat),
    decreases n,
{
    if n < 10 {
        let d: u8 = n as u8;
        out.push(('0' as u8 + d) as char);
    } else {
        push_decimal(out, n / 10);
        let d: u8 = (n % 10) as u8;
        out.push(('0' as u8 + d) as char);
    }
}

/// The decimal digits of `n`.
pub fn number(n: u64) -> (s: String)
    ensures
        s@ == decimal(n as nat),
{
    let mut s = String::new();
    push_decimal(&mut s, n as u128);
    s
}

/// The number that `s` stands for, as an unsigned integer is read: an optional
/// plus sign, then at least one digit and nothing else, no larger than `max`.
pub open spec fn unsigned(s: Seq<char>, max: nat) -> Option<nat> {
    let digits = if s.len() > 0 && s[0] == '+' {
        s.skip(1)
    } else {
        s
    };
    if digits.len() > 0 && all_digits(digits) && digits_value(digits) <= max {
        Some(digits_value(digits))
    } else {
        None
    }
}

/// More digits never make the value smaller.
proof fn lemma_digits_value_grows(s: Seq<char>, i: int)
    requires
        0 <= i <= s.len(),
    ensures
        digits_value(s.take(i)) <= digits_value(s),
    decreases s.len() - i,
{
    if i == s.len() {
        assert(s.take(i) =~= s);
    } else {
        lemma_digits_value_grows(s, i + 1);
        assert(s.take(i + 1).drop_last() =~= s.take(i));
    }
}

/// `unsigned`, computed.
pub fn parse_unsigned(s: &[char], max: u64) -> (r: Option<u64>)
    ensures
        match r {
            Some(n) => unsigned(s@, max as nat) == Some(n as nat),
            None => unsigned(s@, max as nat) is None,
        },
{
    let digits = if s.len() > 0 && s[0] == '+' {
        assert(s@.skip(1) =~= s@.subrange(1, s@.len() as int));
        slice_subrange(s, 1, s.len())
    } else {
        s
    };
    if digits.len() == 0 {
        return None;
    }
    let mut n: u64 = 0;
    for i in 0..digits.len()
        invariant
            n as nat == digits_value(digits@.take(i as int)),
            n <= max,
            forall|j: int| 0 <= j < i ==> is_digit(#[trigger] digits@[j]),
            unsigned(s@, max as nat) == (if digits@.len() > 0 && all_digits(digits@) && digits_value(
                digits@,
            ) <= max as nat {
                Some(digits_value(digits@))
            } else {
                None
            }),
    {
        let c = digits[i];
        if !digit(c) {
            assert(!is_digit(digits@[i as int]));
            return None;
        }
        let d: u64 = c as u64 - '0' as u64;
        proof {
            assert(digits@.take(i + 1).drop_last() =~= digits@.take(i as int));
            lemma_digits_value_grows(digits@, i + 1);
        }
        if d > max || n > max / 10 || n * 10 > max - d {
            return None;
        }
        n = n * 10 + d;
    }
    assert(digits@.take(digits@.len() as int) =~= digits@);
    Some(n)
}

/// A text is cut at each mark: what two texts are cut into, with a mark between
/// them, is what each is cut into.
pub proof fn law_pieces_of_a_joined_text(a: Seq<char>, mark: char, b: Seq<char>, set: Seq<char>)
    requires
        set.contains(mark),
    ensures
        split(a.push(mark) + b, set) == split(a, set) + split(b, set),
    decreases b.len(),
{
    let s = a.push(mark) + b;
    lemma_pieces_exist(a, set);
    lemma_pieces_exist(b, set);
    if b.len() == 0 {
        assert(s =~= a.push(mark));
        assert(s.drop_last() =~= a);
        assert(split(s, set) =~= split(a, set) + split(b, set));
    } else {
        law_pieces_of_a_joined_text(a, mark, b.drop_last(), set);
        lemma_pieces_exist(b.drop_last(), set);
        assert(s.drop_last() =~= a.push(mark) + b.drop_last());
        let x = split(a, set);
        let y = split(b.drop_last(), set);
        assert((x + y).last() == y.last());
        assert((x + y).drop_last() =~= x + y.drop_last());
        assert(split(s, set) =~= split(a, set) + split(b, set));
    }
}

/// A text without a mark is one piece.
pub proof fn law_text_without_a_mark_is_one_piece(s: Seq<char>, set: Seq<char>)
    requires
        forall|i: int| 0 <= i < s.len() ==> !set.contains(#[trigger] s[i]),
    ensures
        split(s, set) == seq![s],
    decreases s.len(),
{
    if s.len() > 0 {
        law_text_without_a_mark_is_one_piece(s.drop_last(), set);
        assert(s.drop_last().push(s.last()) =~= s);
        assert(split(s, set) =~= seq![s]);
    } else {
        assert(s =~= Seq::<char>::empty());
    }
}

/// Every text has a piece.
pub proof fn lemma_pieces_exist(s: Seq<char>, set: Seq<char>)
    ensures
        split(s, set).len() > 0,
    decreases s.len(),
{
    if s.len() > 0 {
        lemma_pieces_exist(s.drop_last(), set);
    }
}

/// Trimming takes away white space only, and all that stands at the ends.
pub proof fn law_trimming_takes_white_space(before: Seq<char>, s: Seq<char>, after: Seq<char>)
    requires
        forall|i: int| 0 <= i < before.len() ==> is_space(#[trigger] before[i]),
        forall|i: int| 0 <= i < after.len() ==> is_space(#[trigger] after[i]),
        s.len() > 0,
        !is_space(s[0]),
        !is_space(s.last()),
    ensures
        trim(before + s + after) == s,
{
    lemma_skips(before, s + after);
    assert(before + s + after =~= before + (s + after));
    lemma_drops(s, after);
}

proof fn lemma_skips(before: Seq<char>, s: Seq<char>)
    requires
        forall|i: int| 0 <= i < before.len() ==> is_space(#[trigger] before[i]),
        s.len() > 0,
        !is_space(s[0]),
    ensures
        skip_while(before + s, spaces()) == s,
    decreases before.len(),
{
    if before.len() > 0 {
        assert((before + s).skip(1) =~= before.skip(1) + s);
        assert(forall|i: int|
            0 <= i < before.skip(1).len() ==> #[trigger] before.skip(1)[i] == before[i + 1]);
        lemma_skips(before.skip(1), s);
    } else {
        assert(before + s =~= s);
    }
}

proof fn lemma_drops(s: Seq<char>, after: Seq<char>)
    requires
        forall|i: int| 0 <= i < after.len() ==> is_space(#[trigger] after[i]),
        s.len() > 0,
        !is_space(s.last()),
    ensures
        drop_while(s + after, spaces()) == s,
    decreases after.len(),
{
    if after.len() > 0 {
        assert((s + after).drop_last() =~= s + after.drop_last());
        lemma_drops(s, after.drop_last());
    } else {
        assert(s + after =~= s);
    }
}

/// A text is cut where a pattern stands first.
pub proof fn law_text_is_cut_at_the_first(s: Seq<char>, pat: Seq<char>, i: int)
    requires
        first_at(s, pat, i),
    ensures
        cut(s, pat) == Some((s.take(i), s.skip(i + pat.len()))),
        head_of(s, pat) == s.take(i),
{
    assert(occurs_at(s, pat, i));
    let k = choose|k: int| first_at(s, pat, k);
    lemma_first_unique(s, pat, i, k);
}

/// What stands behind a pattern is read from the last place where it stands.
pub proof fn law_tail_is_behind_the_last(s: Seq<char>, pat: Seq<char>, i: int)
    requires
        last_at(s, pat, i),
    ensures
        tail_of(s, pat) == s.skip(i + pat.len()),
{
    assert(occurs_at(s, pat, i));
    let k = choose|k: int| last_at(s, pat, k);
    lemma_last_unique(s, pat, i, k);
}

/// A number's digits are read as that number, and nothing that is no number is.
pub proof fn law_numbers_are_read_back(n: nat, max: nat)
    ensures
        unsigned(decimal(n), max) == (if n <= max {
            Some(n)
        } else {
            None
        }),
{
    lemma_decimal_value(n);
    assert(is_digit(decimal(n)[0]));
}

/// Texts are ordered by the first character in which they differ, and a text comes
/// before what continues it.
pub proof fn law_texts_are_ordered_from_the_left(
    front: Seq<char>,
    a: char,
    x: Seq<char>,
    b: char,
    y: Seq<char>,
)
    ensures
        a < b ==> text_below(front.push(a) + x, front.push(b) + y),
        text_below(front, front.push(b) + y),
    decreases front.len(),
{
    let s = front.push(a) + x;
    let t = front.push(b) + y;
    if front.len() > 0 {
        law_texts_are_ordered_from_the_left(front.skip(1), a, x, b, y);
        assert(s.skip(1) =~= front.skip(1).push(a) + x);
        assert(t.skip(1) =~= front.skip(1).push(b) + y);
        assert(s[0] == front[0] && t[0] == front[0]);
    } else {
        assert(s[0] == a && t[0] == b);
    }
}

} // verus!
