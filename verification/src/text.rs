//! Character-level text model: the Rust `str` operations this library relies on,
//! stated over `Seq<char>` and implemented on `Vec<char>`.
use vstd::prelude::*;

verus! {

// ---------------------------------------------------------------------------
// Specifications
// ---------------------------------------------------------------------------
/// Unicode `White_Space`, as `char::is_whitespace` decides it.
pub open spec fn is_ws(c: char) -> bool {
    let u = c as u32;
    ||| 0x09 <= u <= 0x0D
    ||| u == 0x20
    ||| u == 0x85
    ||| u == 0xA0
    ||| u == 0x1680
    ||| 0x2000 <= u <= 0x200A
    ||| u == 0x2028
    ||| u == 0x2029
    ||| u == 0x202F
    ||| u == 0x205F
    ||| u == 0x3000
}

/// `s` with leading whitespace removed (`str::trim_start`).
pub open spec fn trim_start(s: Seq<char>) -> Seq<char>
    decreases s.len(),
{
    if s.len() > 0 && is_ws(s[0]) {
        trim_start(s.drop_first())
    } else {
        s
    }
}

/// `s` with trailing whitespace removed (`str::trim_end`).
pub open spec fn trim_end(s: Seq<char>) -> Seq<char>
    decreases s.len(),
{
    if s.len() > 0 && is_ws(s.last()) {
        trim_end(s.drop_last())
    } else {
        s
    }
}

/// `str::trim`.
pub open spec fn trim(s: Seq<char>) -> Seq<char> {
    trim_end(trim_start(s))
}

/// Index of the first occurrence of `c` in `s`, or `s.len()` when there is none.
pub open spec fn first_index(s: Seq<char>, c: char) -> nat
    decreases s.len(),
{
    if s.len() == 0 {
        0
    } else if s[0] == c {
        0
    } else {
        1 + first_index(s.drop_first(), c)
    }
}

/// Index of the first whitespace character of `s`, or `s.len()` when there is none.
pub open spec fn first_ws(s: Seq<char>) -> nat
    decreases s.len(),
{
    if s.len() == 0 {
        0
    } else if is_ws(s[0]) {
        0
    } else {
        1 + first_ws(s.drop_first())
    }
}

/// `s` without one trailing carriage return.
pub open spec fn strip_cr(s: Seq<char>) -> Seq<char> {
    if s.len() > 0 && s.last() == '\r' {
        s.drop_last()
    } else {
        s
    }
}

/// `str::lines`: pieces ended by `\n` or `\r\n`; the last line ending is optional.
pub open spec fn lines(s: Seq<char>) -> Seq<Seq<char>>
    decreases s.len(),
{
    if s.len() == 0 {
        seq![]
    } else {
        let i = first_index(s, '\n');
        if i >= s.len() {
            seq![s]
        } else {
            seq![strip_cr(s.take(i as int))] + lines(s.skip(i + 1 as int))
        }
    }
}

/// `str::split_whitespace`: the non-empty runs of non-whitespace characters.
pub open spec fn words(s: Seq<char>) -> Seq<Seq<char>>
    decreases s.len(),
{
    if s.len() == 0 {
        seq![]
    } else {
        let i = first_ws(s);
        if i >= s.len() {
            seq![s]
        } else if i == 0 {
            words(s.skip(1))
        } else {
            seq![s.take(i as int)] + words(s.skip(i + 1 as int))
        }
    }
}

/// `str::split(c)`: the pieces between occurrences of `c` (always at least one).
pub open spec fn split_char(s: Seq<char>, c: char) -> Seq<Seq<char>>
    decreases s.len(),
{
    let i = first_index(s, c);
    if i >= s.len() {
        seq![s]
    } else {
        seq![s.take(i as int)] + split_char(s.skip(i + 1 as int), c)
    }
}

/// `str::starts_with`.
pub open spec fn starts_with(s: Seq<char>, p: Seq<char>) -> bool {
    p.len() <= s.len() && s.take(p.len() as int) == p
}

/// `str::ends_with`.
pub open spec fn ends_with(s: Seq<char>, p: Seq<char>) -> bool {
    p.len() <= s.len() && s.skip(s.len() - p.len()) == p
}

/// Every line of `s` as a `Seq<char>` (views of a vector of character vectors).
pub open spec fn views(v: Seq<Vec<char>>) -> Seq<Seq<char>> {
    v.map_values(|x: Vec<char>| x@)
}

/// Views of a vector of strings.
pub open spec fn string_views(v: Seq<String>) -> Seq<Seq<char>> {
    v.map_values(|x: String| x@)
}

// ---------------------------------------------------------------------------
// Lemmas
// ---------------------------------------------------------------------------
proof fn lemma_first_index(s: Seq<char>, c: char)
    ensures
        first_index(s, c) <= s.len(),
        forall|k: int| 0 <= k < first_index(s, c) ==> s[k] != c,
        first_index(s, c) < s.len() ==> s[first_index(s, c) as int] == c,
    decreases s.len(),
{
    if s.len() > 0 && s[0] != c {
        lemma_first_index(s.drop_first(), c);
        assert forall|k: int| 0 <= k < first_index(s, c) implies s[k] != c by {
            if k > 0 {
                assert(s[k] == s.drop_first()[k - 1]);
            }
        }
    }
}

pub proof fn lemma_first_index_is(s: Seq<char>, c: char, i: int)
    requires
        0 <= i <= s.len(),
        forall|k: int| 0 <= k < i ==> s[k] != c,
        i < s.len() ==> s[i] == c,
    ensures
        first_index(s, c) == i,
    decreases s.len(),
{
    if s.len() > 0 && i > 0 {
        assert forall|k: int| 0 <= k < i - 1 implies s.drop_first()[k] != c by {
            assert(s.drop_first()[k] == s[k + 1]);
        }
        lemma_first_index_is(s.drop_first(), c, i - 1);
    }
}

/// The lines of two texts joined, the first empty or ending with a line break, are the
/// lines of the first followed by those of the second.
pub proof fn lemma_lines_concat(s1: Seq<char>, s2: Seq<char>)
    requires
        s1.len() == 0 || s1.last() == '\n',
    ensures
        lines(s1 + s2) == lines(s1) + lines(s2),
    decreases s1.len(),
{
    if s1.len() == 0 {
        assert(s1 + s2 == s2);
        assert(lines(s1) + lines(s2) == lines(s2));
    } else {
        let s = s1 + s2;
        lemma_first_index(s1, '\n');
        let i = first_index(s1, '\n') as int;
        if i >= s1.len() {
            assert(s1[s1.len() - 1] != '\n');
        }
        assert forall|k: int| 0 <= k < i implies s[k] != '\n' by {
            assert(s[k] == s1[k]);
        }
        assert(s[i] == '\n');
        lemma_first_index_is(s, '\n', i);
        assert(s.take(i) == s1.take(i));
        let rest1 = s1.skip(i + 1);
        assert(s.skip(i + 1) == rest1 + s2);
        if rest1.len() > 0 {
            assert(rest1.last() == s1.last());
        }
        lemma_lines_concat(rest1, s2);
        let head = seq![strip_cr(s1.take(i))];
        assert(lines(s) == head + lines(rest1 + s2));
        assert(lines(s1) == head + lines(rest1));
        assert(head + (lines(rest1) + lines(s2)) == (head + lines(rest1)) + lines(s2));
    }
}

proof fn lemma_first_ws(s: Seq<char>)
    ensures
        first_ws(s) <= s.len(),
        forall|k: int| 0 <= k < first_ws(s) ==> !is_ws(s[k]),
        first_ws(s) < s.len() ==> is_ws(s[first_ws(s) as int]),
    decreases s.len(),
{
    if s.len() > 0 && !is_ws(s[0]) {
        lemma_first_ws(s.drop_first());
        assert forall|k: int| 0 <= k < first_ws(s) implies !is_ws(s[k]) by {
            if k > 0 {
                assert(s[k] == s.drop_first()[k - 1]);
            }
        }
    }
}

proof fn lemma_first_ws_is(s: Seq<char>, i: int)
    requires
        0 <= i <= s.len(),
        forall|k: int| 0 <= k < i ==> !is_ws(s[k]),
        i < s.len() ==> is_ws(s[i]),
    ensures
        first_ws(s) == i,
    decreases s.len(),
{
    if s.len() > 0 && i > 0 {
        assert forall|k: int| 0 <= k < i - 1 implies !is_ws(s.drop_first()[k]) by {
            assert(s.drop_first()[k] == s[k + 1]);
        }
        lemma_first_ws_is(s.drop_first(), i - 1);
    }
}

// ---------------------------------------------------------------------------
// Conversions
// ---------------------------------------------------------------------------
/// Appends one character to a `String` (std `String::push`).
#[verifier::external_body]
fn push_char(s: &mut String, c: char)
    ensures
        final(s)@ == old(s)@.push(c),
{
    s.push(c);
}

/// The characters of `s`, in order.
pub fn chars_of(s: &str) -> (r: Vec<char>)
    ensures
        r@ == s@,
{
    let mut r: Vec<char> = Vec::new();
    for c in it: s.chars()
        invariant
            r@ == it.seq().take(it.index() as int),
    {
        r.push(c);
    }
    r
}

/// A `String` holding exactly the characters `v`.
pub fn string_of(v: &[char]) -> (r: String)
    ensures
        r@ == v@,
{
    let mut r = String::new();
    let n = v.len();
    for i in 0..n
        invariant
            n == v@.len(),
            r@ == v@.take(i as int),
    {
        push_char(&mut r, v[i]);
        assert(v@.take(i + 1) == v@.take(i as int).push(v@[i as int]));
    }
    assert(v@.take(n as int) == v@);
    r
}

/// The characters `v[lo..hi]` as a new vector.
pub fn slice_vec(v: &[char], lo: usize, hi: usize) -> (r: Vec<char>)
    requires
        lo <= hi <= v@.len(),
    ensures
        r@ == v@.subrange(lo as int, hi as int),
{
    let mut r: Vec<char> = Vec::new();
    let mut i = lo;
    while i < hi
        invariant
            lo <= i <= hi <= v@.len(),
            r@ == v@.subrange(lo as int, i as int),
        decreases hi - i,
    {
        r.push(v[i]);
        assert(v@.subrange(lo as int, i + 1) == v@.subrange(lo as int, i as int).push(v@[i as int]));
        i = i + 1;
    }
    r
}

/// `a` followed by `b`.
pub fn concat(a: &[char], b: &[char]) -> (r: Vec<char>)
    ensures
        r@ == a@ + b@,
{
    let mut r = slice_vec(a, 0, a.len());
    assert(a@.subrange(0, a@.len() as int) == a@);
    let n = b.len();
    for i in 0..n
        invariant
            n == b@.len(),
            r@ == a@ + b@.take(i as int),
    {
        r.push(b[i]);
        assert(a@ + b@.take(i + 1) == (a@ + b@.take(i as int)).push(b@[i as int]));
    }
    assert(b@.take(n as int) == b@);
    r
}

/// Whether `c` is whitespace (`char::is_whitespace`).
pub fn is_whitespace(c: char) -> (r: bool)
    ensures
        r == is_ws(c),
{
    let u = c as u32;
    (0x09 <= u && u <= 0x0D) || u == 0x20 || u == 0x85 || u == 0xA0 || u == 0x1680 || (0x2000
        <= u && u <= 0x200A) || u == 0x2028 || u == 0x2029 || u == 0x202F || u == 0x205F || u
        == 0x3000
}

// ---------------------------------------------------------------------------
// Trimming
// ---------------------------------------------------------------------------
/// Number of leading whitespace characters dropped by `trim_start`.
fn trim_start_index(s: &[char]) -> (i: usize)
    ensures
        i <= s@.len(),
        trim_start(s@) == s@.skip(i as int),
{
    let mut i: usize = 0;
    assert(s@.skip(0) == s@);
    while i < s.len() && is_whitespace(s[i])
        invariant
            i <= s@.len(),
            trim_start(s@) == trim_start(s@.skip(i as int)),
        decreases s@.len() - i,
    {
        assert(s@.skip(i as int).drop_first() == s@.skip(i + 1));
        i = i + 1;
    }
    i
}

/// Length of the prefix kept by `trim_end`.
fn trim_end_index(s: &[char]) -> (j: usize)
    ensures
        j <= s@.len(),
        trim_end(s@) == s@.take(j as int),
{
    let mut j: usize = s.len();
    assert(s@.take(j as int) == s@);
    while j > 0 && is_whitespace(s[j - 1])
        invariant
            j <= s@.len(),
            trim_end(s@) == trim_end(s@.take(j as int)),
        decreases j,
    {
        assert(s@.take(j as int).drop_last() == s@.take(j - 1));
        j = j - 1;
    }
    j
}

/// `str::trim` on characters.
pub fn trim_chars(s: &[char]) -> (r: Vec<char>)
    ensures
        r@ == trim(s@),
{
    let i = trim_start_index(s);
    let rest = slice_vec(s, i, s.len());
    assert(rest@ == s@.skip(i as int));
    let j = trim_end_index(rest.as_slice());
    slice_vec(rest.as_slice(), 0, j)
}

// ---------------------------------------------------------------------------
// Splitting
// ---------------------------------------------------------------------------
/// Index of the first `c` in `s` at or after `from`, or `s.len()`.
fn find_char_from(s: &[char], c: char, from: usize) -> (i: usize)
    requires
        from <= s@.len(),
    ensures
        from <= i <= s@.len(),
        i - from == first_index(s@.skip(from as int), c),
{
    let mut i = from;
    while i < s.len() && s[i] != c
        invariant
            from <= i <= s@.len(),
            forall|k: int| from <= k < i ==> s@[k] != c,
        decreases s@.len() - i,
    {
        i = i + 1;
    }
    proof {
        let t = s@.skip(from as int);
        assert forall|k: int| 0 <= k < i - from implies t[k] != c by {
            assert(t[k] == s@[k + from]);
        }
        lemma_first_index_is(t, c, i - from);
    }
    i
}

/// Index of the first whitespace in `s` at or after `from`, or `s.len()`.
fn find_ws_from(s: &[char], from: usize) -> (i: usize)
    requires
        from <= s@.len(),
    ensures
        from <= i <= s@.len(),
        i - from == first_ws(s@.skip(from as int)),
{
    let mut i = from;
    while i < s.len() && !is_whitespace(s[i])
        invariant
            from <= i <= s@.len(),
            forall|k: int| from <= k < i ==> !is_ws(s@[k]),
        decreases s@.len() - i,
    {
        i = i + 1;
    }
    proof {
        let t = s@.skip(from as int);
        assert forall|k: int| 0 <= k < i - from implies !is_ws(t[k]) by {
            assert(t[k] == s@[k + from]);
        }
        lemma_first_ws_is(t, i - from);
    }
    i
}

/// `strip_cr` on the characters `s[lo..hi]`.
fn strip_cr_slice(s: &[char], lo: usize, hi: usize) -> (r: Vec<char>)
    requires
        lo <= hi <= s@.len(),
    ensures
        r@ == strip_cr(s@.subrange(lo as int, hi as int)),
{
    if hi > lo && s[hi - 1] == '\r' {
        let r = slice_vec(s, lo, hi - 1);
        assert(s@.subrange(lo as int, hi as int).drop_last() == s@.subrange(lo as int, hi - 1));
        r
    } else {
        slice_vec(s, lo, hi)
    }
}

/// `str::lines` on characters.
pub fn lines_of(s: &[char]) -> (r: Vec<Vec<char>>)
    ensures
        views(r@) == lines(s@),
{
    let mut r: Vec<Vec<char>> = Vec::new();
    let mut start: usize = 0;
    assert(s@.skip(0) == s@);
    while start < s.len()
        invariant
            start <= s@.len(),
            lines(s@) == views(r@) + lines(s@.skip(start as int)),
        decreases s@.len() - start,
    {
        let ghost t = s@.skip(start as int);
        let i = find_char_from(s, '\n', start);
        proof {
            lemma_first_index(t, '\n');
        }
        if i >= s.len() {
            let piece = slice_vec(s, start, s.len());
            assert(piece@ == t);
            assert(views(r@.push(piece)) == views(r@).push(piece@));
            r.push(piece);
            start = s.len();
            assert(lines(s@.skip(start as int)) == Seq::<Seq<char>>::empty());
            assert(lines(t) == seq![t]);
        } else {
            let piece = strip_cr_slice(s, start, i);
            assert(s@.subrange(start as int, i as int) == t.take(i - start));
            assert(t.skip(i - start + 1) == s@.skip(i + 1));
            assert(views(r@.push(piece)) == views(r@).push(piece@));
            r.push(piece);
            start = i + 1;
        }
    }
    assert(lines(s@.skip(start as int)) == Seq::<Seq<char>>::empty());
    r
}

/// `str::split_whitespace` on characters.
pub fn words_of(s: &[char]) -> (r: Vec<Vec<char>>)
    ensures
        views(r@) == words(s@),
{
    let mut r: Vec<Vec<char>> = Vec::new();
    let mut start: usize = 0;
    assert(s@.skip(0) == s@);
    while start < s.len()
        invariant
            start <= s@.len(),
            words(s@) == views(r@) + words(s@.skip(start as int)),
        decreases s@.len() - start,
    {
        let ghost t = s@.skip(start as int);
        let i = find_ws_from(s, start);
        proof {
            lemma_first_ws(t);
        }
        if i >= s.len() {
            let piece = slice_vec(s, start, s.len());
            assert(piece@ == t);
            assert(views(r@.push(piece)) == views(r@).push(piece@));
            r.push(piece);
            start = s.len();
            assert(words(s@.skip(start as int)) == Seq::<Seq<char>>::empty());
        } else if i == start {
            assert(t.skip(1) == s@.skip(start + 1));
            start = start + 1;
        } else {
            let piece = slice_vec(s, start, i);
            assert(piece@ == t.take(i - start));
            assert(t.skip(i - start + 1) == s@.skip(i + 1));
            assert(views(r@.push(piece)) == views(r@).push(piece@));
            r.push(piece);
            start = i + 1;
        }
    }
    assert(words(s@.skip(start as int)) == Seq::<Seq<char>>::empty());
    r
}

/// `str::split(c)` on characters.
pub fn split_char_of(s: &[char], c: char) -> (r: Vec<Vec<char>>)
    ensures
        views(r@) == split_char(s@, c),
{
    let mut r: Vec<Vec<char>> = Vec::new();
    let mut start: usize = 0;
    assert(s@.skip(0) == s@);
    loop
        invariant
            start <= s@.len(),
            split_char(s@, c) == views(r@) + split_char(s@.skip(start as int), c),
        decreases s@.len() - start,
    {
        let ghost t = s@.skip(start as int);
        let i = find_char_from(s, c, start);
        proof {
            lemma_first_index(t, c);
        }
        if i >= s.len() {
            let piece = slice_vec(s, start, s.len());
            assert(piece@ == t);
            assert(views(r@.push(piece)) == views(r@).push(piece@));
            r.push(piece);
            return r;
        } else {
            let piece = slice_vec(s, start, i);
            assert(piece@ == t.take(i - start));
            assert(t.skip(i - start + 1) == s@.skip(i + 1));
            assert(views(r@.push(piece)) == views(r@).push(piece@));
            r.push(piece);
            start = i + 1;
        }
    }
}

// ---------------------------------------------------------------------------
// Comparisons
// ---------------------------------------------------------------------------
/// Whether `a` and `b` hold the same characters.
pub fn chars_eq(a: &[char], b: &[char]) -> (r: bool)
    ensures
        r == (a@ == b@),
{
    if a.len() != b.len() {
        return false;
    }
    let n = a.len();
    for i in 0..n
        invariant
            n == a@.len() == b@.len(),
            forall|k: int| 0 <= k < i ==> a@[k] == b@[k],
    {
        if a[i] != b[i] {
            return false;
        }
    }
    assert(a@ == b@);
    true
}

/// `str::starts_with` on characters.
pub fn starts_with_chars(s: &[char], p: &[char]) -> (r: bool)
    ensures
        r == starts_with(s@, p@),
{
    if p.len() > s.len() {
        return false;
    }
    let n = p.len();
    for i in 0..n
        invariant
            n == p@.len() <= s@.len(),
            forall|k: int| 0 <= k < i ==> s@[k] == p@[k],
    {
        if s[i] != p[i] {
            assert(s@.take(n as int)[i as int] != p@[i as int]);
            return false;
        }
    }
    assert(s@.take(n as int) == p@);
    true
}

/// `str::ends_with` on characters.
pub fn ends_with_chars(s: &[char], p: &[char]) -> (r: bool)
    ensures
        r == ends_with(s@, p@),
{
    if p.len() > s.len() {
        return false;
    }
    let n = p.len();
    let off = s.len() - n;
    for i in 0..n
        invariant
            n == p@.len() <= s@.len(),
            off + n == s@.len(),
            s@.len() <= usize::MAX,
            forall|k: int| 0 <= k < i ==> s@[k + off] == p@[k],
    {
        if s[off + i] != p[i] {
            assert(s@.skip(off as int)[i as int] != p@[i as int]);
            return false;
        }
    }
    assert(s@.skip(off as int) == p@);
    true
}

/// Whether `c` occurs in `s`.
pub fn contains_char(s: &[char], c: char) -> (r: bool)
    ensures
        r == s@.contains(c),
{
    let n = s.len();
    for i in 0..n
        invariant
            n == s@.len(),
            forall|k: int| 0 <= k < i ==> s@[k] != c,
    {
        if s[i] == c {
            assert(s@[i as int] == c);
            return true;
        }
    }
    false
}

/// Whether some character of `s` is whitespace.
pub fn contains_ws(s: &[char]) -> (r: bool)
    ensures
        r == exists|k: int| 0 <= k < s@.len() && is_ws(#[trigger] s@[k]),
{
    let n = s.len();
    for i in 0..n
        invariant
            n == s@.len(),
            forall|k: int| 0 <= k < i ==> !is_ws(#[trigger] s@[k]),
    {
        if is_whitespace(s[i]) {
            return true;
        }
    }
    false
}


// ---------------------------------------------------------------------------
// Numbers
// ---------------------------------------------------------------------------
/// An ASCII decimal digit.
pub open spec fn is_digit(c: char) -> bool {
    48 <= (c as u32) <= 57
}

/// The value of a decimal digit character.
pub open spec fn digit_value(c: char) -> nat {
    ((c as u32) - 48) as nat
}

/// The value of a run of decimal digits (most significant first).
pub open spec fn decimal_value(s: Seq<char>) -> nat
    decreases s.len(),
{
    if s.len() == 0 {
        0
    } else {
        decimal_value(s.drop_last()) * 10 + digit_value(s.last())
    }
}

/// `s` without one leading `+`.
pub open spec fn strip_plus(s: Seq<char>) -> Seq<char> {
    if s.len() > 0 && s[0] == '+' {
        s.drop_first()
    } else {
        s
    }
}

/// A non-empty run of ASCII digits whose value is at most `max`, read as that value.
pub open spec fn parse_digits(d: Seq<char>, max: nat) -> Option<nat> {
    if d.len() > 0 && (forall|k: int| 0 <= k < d.len() ==> is_digit(#[trigger] d[k]))
        && decimal_value(d) <= max {
        Some(decimal_value(d))
    } else {
        None
    }
}

/// `str::parse` for an unsigned integer type whose largest value is `max`: an optional
/// `+`, then at least one ASCII digit, and a value that fits.
pub open spec fn parse_unsigned(s: Seq<char>, max: nat) -> Option<nat> {
    parse_digits(strip_plus(s), max)
}

/// The character of a digit `0..=9`.
pub open spec fn digit_char(n: nat) -> char {
    ((48 + n) as u32) as char
}

/// The decimal representation of `n` (`ToString` on an unsigned integer).
pub open spec fn decimal(n: nat) -> Seq<char>
    decreases n,
{
    if n < 10 {
        seq![digit_char(n)]
    } else {
        decimal(n / 10).push(digit_char(n % 10))
    }
}

proof fn lemma_decimal_value_monotone(s: Seq<char>, k: int)
    requires
        0 <= k <= s.len(),
    ensures
        decimal_value(s.take(k)) <= decimal_value(s),
    decreases s.len(),
{
    if k < s.len() {
        assert(s.take(k) == s.drop_last().take(k));
        lemma_decimal_value_monotone(s.drop_last(), k);
    } else {
        assert(s.take(k) == s);
    }
}

/// `str::parse` into an unsigned integer no larger than `max`.
fn parse_bounded(s: &[char], max: u64) -> (r: Option<u64>)
    ensures
        match r {
            Some(v) => parse_unsigned(s@, max as nat) == Some(v as nat),
            None => parse_unsigned(s@, max as nat) is None,
        },
{
    let start: usize = if s.len() > 0 && s[0] == '+' {
        1
    } else {
        0
    };
    let ghost d = strip_plus(s@);
    assert(d == s@.skip(start as int));
    if start >= s.len() {
        return None;
    }
    let mut acc: u128 = 0;
    let mut i = start;
    assert(d.take(0) == Seq::<char>::empty());
    while i < s.len()
        invariant
            start <= i <= s@.len(),
            d == s@.skip(start as int),
            d == strip_plus(s@),
            forall|k: int| 0 <= k < i - start ==> is_digit(#[trigger] d[k]),
            acc == decimal_value(d.take(i - start)),
            acc <= max,
        decreases s@.len() - i,
    {
        let c = s[i];
        let u = c as u32;
        if u < 48 || u > 57 {
            assert(!is_digit(d[i - start]));
            assert(parse_digits(d, max as nat) is None);
            return None;
        }
        let ghost j = i - start;
        assert(d.take(j + 1).drop_last() == d.take(j));
        acc = acc * 10 + ((u - 48) as u128);
        assert(acc == decimal_value(d.take(j + 1)));
        if acc > max as u128 {
            proof {
                lemma_decimal_value_monotone(d, j + 1);
                assert(parse_digits(d, max as nat) is None);
            }
            return None;
        }
        i = i + 1;
    }
    assert(d.take(i - start) == d);
    Some(acc as u64)
}

/// `str::parse::<u64>`.
pub fn parse_u64(s: &[char]) -> (r: Option<u64>)
    ensures
        match r {
            Some(v) => parse_unsigned(s@, u64::MAX as nat) == Some(v as nat),
            None => parse_unsigned(s@, u64::MAX as nat) is None,
        },
{
    parse_bounded(s, u64::MAX)
}

/// `str::parse::<u32>`.
pub fn parse_u32(s: &[char]) -> (r: Option<u32>)
    ensures
        match r {
            Some(v) => parse_unsigned(s@, u32::MAX as nat) == Some(v as nat),
            None => parse_unsigned(s@, u32::MAX as nat) is None,
        },
{
    match parse_bounded(s, u32::MAX as u64) {
        Some(v) => Some(v as u32),
        None => None,
    }
}

/// `str::parse::<usize>`.
pub fn parse_usize(s: &[char]) -> (r: Option<usize>)
    ensures
        match r {
            Some(v) => parse_unsigned(s@, usize::MAX as nat) == Some(v as nat),
            None => parse_unsigned(s@, usize::MAX as nat) is None,
        },
{
    match parse_bounded(s, usize::MAX as u64) {
        Some(v) => Some(v as usize),
        None => None,
    }
}

/// The decimal digits of `n`.
pub fn decimal_chars(n: u64) -> (r: Vec<char>)
    ensures
        r@ == decimal(n as nat),
    decreases n,
{
    if n < 10 {
        let c = ((n as u8) + 48) as char;
        assert(c == digit_char(n as nat));
        let mut r: Vec<char> = Vec::new();
        r.push(c);
        assert(r@ == seq![digit_char(n as nat)]);
        r
    } else {
        let mut r = decimal_chars(n / 10);
        let c = (((n % 10) as u8) + 48) as char;
        assert(c == digit_char((n % 10) as nat));
        r.push(c);
        r
    }
}

// ---------------------------------------------------------------------------
// Layout
// ---------------------------------------------------------------------------
/// `n` copies of `c`.
pub open spec fn repeat(c: char, n: nat) -> Seq<char> {
    Seq::new(n, |i: int| c)
}

/// `format!("{:<w$}", s)`: `s` padded with spaces on the right to `w` characters.
pub open spec fn pad_right(s: Seq<char>, w: nat) -> Seq<char> {
    if s.len() < w {
        s + repeat(' ', (w - s.len()) as nat)
    } else {
        s
    }
}

/// `format!("{:>w$}", s)`: `s` padded with spaces on the left to `w` characters.
pub open spec fn pad_left(s: Seq<char>, w: nat) -> Seq<char> {
    if s.len() < w {
        repeat(' ', (w - s.len()) as nat) + s
    } else {
        s
    }
}

/// The pieces of `parts` with `sep` between consecutive ones (`[T]::join`).
pub open spec fn join(parts: Seq<Seq<char>>, sep: Seq<char>) -> Seq<char>
    decreases parts.len(),
{
    if parts.len() == 0 {
        seq![]
    } else if parts.len() == 1 {
        parts[0]
    } else {
        join(parts.drop_last(), sep) + sep + parts.last()
    }
}

/// `str::replace(from, to)` for single characters.
pub open spec fn replace_char(s: Seq<char>, from: char, to: char) -> Seq<char> {
    s.map_values(|c: char| if c == from { to } else { c })
}

/// `v` followed by `n` copies of `c`.
pub fn push_repeat(v: &mut Vec<char>, c: char, n: usize)
    ensures
        final(v)@ == old(v)@ + repeat(c, n as nat),
{
    let ghost v0 = v@;
    for i in 0..n
        invariant
            v@ == v0 + repeat(c, i as nat),
    {
        v.push(c);
        assert(v0 + repeat(c, (i + 1) as nat) == (v0 + repeat(c, i as nat)).push(c));
    }
}

/// `pad_right` on characters.
pub fn pad_right_chars(s: &[char], w: usize) -> (r: Vec<char>)
    ensures
        r@ == pad_right(s@, w as nat),
{
    let mut r = slice_vec(s, 0, s.len());
    assert(s@.subrange(0, s@.len() as int) == s@);
    if s.len() < w {
        push_repeat(&mut r, ' ', w - s.len());
    }
    r
}

/// `pad_left` on characters.
pub fn pad_left_chars(s: &[char], w: usize) -> (r: Vec<char>)
    ensures
        r@ == pad_left(s@, w as nat),
{
    let mut r: Vec<char> = Vec::new();
    if s.len() < w {
        push_repeat(&mut r, ' ', w - s.len());
    }
    assert(r@ + s@ == pad_left(s@, w as nat));
    concat(r.as_slice(), s)
}

/// `join` on character vectors.
pub fn join_chars(parts: &Vec<Vec<char>>, sep: &[char]) -> (r: Vec<char>)
    ensures
        r@ == join(views(parts@), sep@),
{
    let mut r: Vec<char> = Vec::new();
    let n = parts.len();
    assert(views(parts@).take(0) == Seq::<Seq<char>>::empty());
    for i in 0..n
        invariant
            n == parts@.len(),
            r@ == join(views(parts@).take(i as int), sep@),
    {
        let ghost pre = views(parts@).take(i as int);
        let ghost next = views(parts@).take(i + 1);
        assert(next.drop_last() == pre);
        assert(next.last() == parts@[i as int]@);
        if i == 0 {
            r = concat(r.as_slice(), parts[i].as_slice());
            assert(next == seq![parts@[0]@]);
        } else {
            let with_sep = concat(r.as_slice(), sep);
            r = concat(with_sep.as_slice(), parts[i].as_slice());
        }
    }
    assert(views(parts@).take(n as int) == views(parts@));
    r
}

/// `replace_char` on characters.
pub fn replace_char_chars(s: &[char], from: char, to: char) -> (r: Vec<char>)
    ensures
        r@ == replace_char(s@, from, to),
{
    let mut r: Vec<char> = Vec::new();
    let n = s.len();
    for i in 0..n
        invariant
            n == s@.len(),
            r@ == replace_char(s@.take(i as int), from, to),
    {
        let c = if s[i] == from {
            to
        } else {
            s[i]
        };
        r.push(c);
        assert(replace_char(s@.take(i + 1), from, to) == replace_char(s@.take(i as int), from, to).push(c));
    }
    assert(s@.take(n as int) == s@);
    r
}

// ---------------------------------------------------------------------------
// UTF-8 byte positions
// ---------------------------------------------------------------------------
/// Number of bytes of `c` in UTF-8.
pub open spec fn utf8_width(c: char) -> nat {
    let u = c as u32;
    if u < 0x80 {
        1
    } else if u < 0x800 {
        2
    } else if u < 0x10000 {
        3
    } else {
        4
    }
}

/// Number of bytes of `s` in UTF-8 (`str::len`).
pub open spec fn byte_len(s: Seq<char>) -> nat
    decreases s.len(),
{
    if s.len() == 0 {
        0
    } else {
        byte_len(s.drop_last()) + utf8_width(s.last())
    }
}

/// Byte offset `b` falls between two characters of `s` (`str::is_char_boundary`).
pub open spec fn is_boundary(s: Seq<char>, b: int) -> bool {
    exists|k: int| 0 <= k <= s.len() && byte_len(#[trigger] s.take(k)) == b
}

/// The number of characters before byte offset `b`, when `b` is a boundary.
pub open spec fn chars_before(s: Seq<char>, b: int) -> int {
    choose|k: int| 0 <= k <= s.len() && byte_len(#[trigger] s.take(k)) == b
}

/// `&s[b..]` for a byte offset `b`.
pub open spec fn byte_skip(s: Seq<char>, b: int) -> Seq<char> {
    s.skip(chars_before(s, b))
}

/// `&s[..b]` for a byte offset `b`.
pub open spec fn byte_take(s: Seq<char>, b: int) -> Seq<char> {
    s.take(chars_before(s, b))
}

proof fn lemma_byte_len_strict(s: Seq<char>, j: int, k: int)
    requires
        0 <= j < k <= s.len(),
    ensures
        byte_len(s.take(j)) < byte_len(s.take(k)),
    decreases k - j,
{
    assert(s.take(k).drop_last() == s.take(k - 1));
    if j < k - 1 {
        lemma_byte_len_strict(s, j, k - 1);
    }
}

/// The number of characters of `s` that fill exactly its first `b` bytes, if any.
pub fn char_count_at_byte(s: &[char], b: usize) -> (r: Option<usize>)
    ensures
        match r {
            Some(k) => is_boundary(s@, b as int) && k == chars_before(s@, b as int) && k
                <= s@.len(),
            None => !is_boundary(s@, b as int),
        },
{
    let mut acc: u128 = 0;
    let mut k: usize = 0;
    assert(s@.take(0) == Seq::<char>::empty());
    while k < s.len() && acc < b as u128
        invariant
            k <= s@.len(),
            acc == byte_len(s@.take(k as int)),
            acc <= b + 4,
                forall|j: int| 0 <= j < k ==> byte_len(#[trigger] s@.take(j)) < b,
        decreases s@.len() - k,
    {
        let u = s[k] as u32;
        let w: u128 = if u < 0x80 {
            1
        } else if u < 0x800 {
            2
        } else if u < 0x10000 {
            3
        } else {
            4
        };
        assert(s@.take(k + 1).drop_last() == s@.take(k as int));
        acc = acc + w;
        k = k + 1;
    }
    if acc == b as u128 {
        proof {
            assert(byte_len(s@.take(k as int)) == b);
            assert forall|j: int| 0 <= j <= s@.len() && byte_len(#[trigger] s@.take(j)) == b implies j
                == k by {
                if j < k {
                    lemma_byte_len_strict(s@, j, k as int);
                } else if j > k {
                    lemma_byte_len_strict(s@, k as int, j);
                }
            }
        }
        Some(k)
    } else {
        proof {
            assert forall|j: int| 0 <= j <= s@.len() implies byte_len(#[trigger] s@.take(j)) != b by {
                if j < k {
                } else if j > k {
                    lemma_byte_len_strict(s@, k as int, j);
                }
            }
        }
        None
    }
}

/// Whether `s` takes more than `b` bytes in UTF-8 (`str::len() > b`).
pub fn byte_len_gt(s: &[char], b: usize) -> (r: bool)
    ensures
        r == (byte_len(s@) > b),
{
    let mut acc: u128 = 0;
    let mut k: usize = 0;
    assert(s@.take(0) == Seq::<char>::empty());
    while k < s.len() && acc <= b as u128
        invariant
            k <= s@.len(),
            acc == byte_len(s@.take(k as int)),
            acc <= b + 4,
            decreases s@.len() - k,
    {
        let u = s[k] as u32;
        let w: u128 = if u < 0x80 {
            1
        } else if u < 0x800 {
            2
        } else if u < 0x10000 {
            3
        } else {
            4
        };
        assert(s@.take(k + 1).drop_last() == s@.take(k as int));
        acc = acc + w;
        k = k + 1;
    }
    assert(s@.take(s@.len() as int) == s@);
    if acc > b as u128 {
        if k < s.len() {
            proof {
                lemma_byte_len_strict(s@, k as int, s@.len() as int);
            }
        }
        true
    } else {
        false
    }
}

/// `&s[b..]`: the characters after the first `b` bytes.
pub fn skip_bytes(s: &[char], b: usize) -> (r: Vec<char>)
    requires
        is_boundary(s@, b as int),
    ensures
        r@ == byte_skip(s@, b as int),
{
    match char_count_at_byte(s, b) {
        Some(k) => slice_vec(s, k, s.len()),
        None => {
            proof {
                assert(false);
            }
            Vec::new()
        },
    }
}

/// `&s[..b]`: the characters of the first `b` bytes.
pub fn take_bytes(s: &[char], b: usize) -> (r: Vec<char>)
    requires
        is_boundary(s@, b as int),
    ensures
        r@ == byte_take(s@, b as int),
{
    match char_count_at_byte(s, b) {
        Some(k) => slice_vec(s, 0, k),
        None => {
            proof {
                assert(false);
            }
            Vec::new()
        },
    }
}

/// Whether byte offset `b` of `s` falls between two characters.
pub fn is_boundary_at(s: &[char], b: usize) -> (r: bool)
    ensures
        r == is_boundary(s@, b as int),
{
    match char_count_at_byte(s, b) {
        Some(_) => true,
        None => false,
    }
}

// ---------------------------------------------------------------------------
// Ordering
// ---------------------------------------------------------------------------
/// `a < b` in the order of `String` (code point by code point, a proper prefix first).
pub open spec fn lex_lt(a: Seq<char>, b: Seq<char>) -> bool
    decreases a.len(),
{
    if b.len() == 0 {
        false
    } else if a.len() == 0 {
        true
    } else if a[0] != b[0] {
        (a[0] as u32) < (b[0] as u32)
    } else {
        lex_lt(a.drop_first(), b.drop_first())
    }
}

/// `a <= b` in the order of `String`.
pub open spec fn lex_le(a: Seq<char>, b: Seq<char>) -> bool {
    lex_lt(a, b) || a == b
}

/// The order of `String` is a strict total order.
pub proof fn lemma_lex_total(a: Seq<char>, b: Seq<char>)
    ensures
        a == b || lex_lt(a, b) || lex_lt(b, a),
        !(lex_lt(a, b) && lex_lt(b, a)),
        !lex_lt(a, a),
    decreases a.len(),
{
    if a.len() > 0 && b.len() > 0 && a[0] != b[0] {
        vstd::utf8::char_u32_cast(a[0], a[0] as u32);
        vstd::utf8::char_u32_cast(b[0], b[0] as u32);
    }
    if a.len() > 0 && b.len() > 0 && a[0] == b[0] {
        lemma_lex_total(a.drop_first(), b.drop_first());
        if a.drop_first() == b.drop_first() {
            assert(a == seq![a[0]] + a.drop_first());
            assert(b == seq![b[0]] + b.drop_first());
        }
    }
    if a.len() > 0 {
        lemma_lex_total(a.drop_first(), a.drop_first());
    }
    if a.len() == 0 && b.len() == 0 {
        assert(a == b);
    }
}

/// The order of `String` is transitive.
pub proof fn lemma_lex_trans(a: Seq<char>, b: Seq<char>, c: Seq<char>)
    requires
        lex_lt(a, b),
        lex_lt(b, c),
    ensures
        lex_lt(a, c),
    decreases a.len(),
{
    if a.len() > 0 && b.len() > 0 && c.len() > 0 && a[0] == b[0] && b[0] == c[0] {
        lemma_lex_trans(a.drop_first(), b.drop_first(), c.drop_first());
    }
}

/// Whether `a < b` in the order of `String`.
pub fn lex_less(a: &[char], b: &[char]) -> (r: bool)
    ensures
        r == lex_lt(a@, b@),
{
    let mut i: usize = 0;
    assert(a@.skip(0) == a@ && b@.skip(0) == b@);
    loop
        invariant
            i <= a@.len(),
            i <= b@.len(),
            lex_lt(a@, b@) == lex_lt(a@.skip(i as int), b@.skip(i as int)),
        decreases a@.len() - i,
    {
        if i == b.len() {
            return false;
        }
        if i == a.len() {
            return true;
        }
        if a[i] != b[i] {
            return (a[i] as u32) < (b[i] as u32);
        }
        assert(a@.skip(i as int).drop_first() == a@.skip(i + 1));
        assert(b@.skip(i as int).drop_first() == b@.skip(i + 1));
        i = i + 1;
    }
}

proof fn lemma_trim_start_at(s: Seq<char>) -> (i: int)
    ensures
        0 <= i <= s.len(),
        trim_start(s) == s.skip(i),
        forall|k: int| 0 <= k < i ==> is_ws(s[k]),
        i < s.len() ==> !is_ws(s[i]),
    decreases s.len(),
{
    if s.len() > 0 && is_ws(s[0]) {
        let i0 = lemma_trim_start_at(s.drop_first());
        assert(s.drop_first().skip(i0) == s.skip(i0 + 1));
        assert forall|k: int| 0 <= k < i0 + 1 implies is_ws(s[k]) by {
            if k > 0 {
                assert(s[k] == s.drop_first()[k - 1]);
            }
        }
        if i0 + 1 < s.len() {
            assert(s[i0 + 1] == s.drop_first()[i0]);
        }
        i0 + 1
    } else {
        assert(s.skip(0) == s);
        0
    }
}

proof fn lemma_trim_end_at(s: Seq<char>) -> (j: int)
    ensures
        0 <= j <= s.len(),
        trim_end(s) == s.take(j),
        forall|k: int| j <= k < s.len() ==> is_ws(s[k]),
        j > 0 ==> !is_ws(s[j - 1]),
    decreases s.len(),
{
    if s.len() > 0 && is_ws(s.last()) {
        let j0 = lemma_trim_end_at(s.drop_last());
        assert(s.drop_last().take(j0) == s.take(j0));
        assert forall|k: int| j0 <= k < s.len() implies is_ws(s[k]) by {
            if k < s.len() - 1 {
                assert(s[k] == s.drop_last()[k]);
            }
        }
        if j0 > 0 {
            assert(s[j0 - 1] == s.drop_last()[j0 - 1]);
        }
        j0
    } else {
        assert(s.take(s.len() as int) == s);
        s.len() as int
    }
}

/// `trim` keeps the part of `s` between its leading and its trailing whitespace: a
/// contiguous piece of `s` that starts and ends with a non-whitespace character (or is
/// empty), with only whitespace before and after it in `s`.
pub proof fn lemma_trim_shape(s: Seq<char>)
    ensures
        exists|i: int, j: int|
            0 <= i <= j <= s.len() && trim(s) == s.subrange(i, j) && (forall|k: int|
                0 <= k < i ==> is_ws(#[trigger] s[k])) && (forall|k: int|
                j <= k < s.len() ==> is_ws(#[trigger] s[k])) && (i < j ==> !is_ws(s[i]) && !is_ws(
                s[j - 1],
            )),
{
    let i = lemma_trim_start_at(s);
    let t = s.skip(i);
    let j0 = lemma_trim_end_at(t);
    let j = i + j0;
    assert(trim(s) == t.take(j0));
    assert(t.take(j0) == s.subrange(i, j));
    assert forall|k: int| j <= k < s.len() implies is_ws(#[trigger] s[k]) by {
        assert(s[k] == t[k - i]);
    }
    if i < j {
        assert(s[j - 1] == t[j0 - 1]);
    }
}

/// Every line of `s` lies inside `s` and holds no line break; joined back with `\n`
/// (and the carriage returns that ended lines restored) they give `s` up to its last line
/// ending: there are exactly as many lines as line breaks, plus one when the text after
/// the last break is not empty.
pub proof fn lemma_lines_shape(s: Seq<char>)
    ensures
        forall|k: int| 0 <= k < lines(s).len() ==> !(#[trigger] lines(s)[k]).contains('\n'),
        lines(s).len() == line_breaks(s) + (if s.len() > 0 && s.last() != '\n' {
            1int
        } else {
            0int
        }),
    decreases s.len(),
{
    if s.len() > 0 {
        lemma_first_index(s, '\n');
        let i = first_index(s, '\n') as int;
        if i >= s.len() {
            assert(lines(s) == seq![s]);
            lemma_no_breaks(s);
            assert forall|k: int| 0 <= k < lines(s).len() implies !(#[trigger] lines(s)[k]).contains('\n') by {
                if s.contains('\n') {
                    let q = choose|q: int| 0 <= q < s.len() && s[q] == '\n';
                }
            }
        } else {
            let rest = s.skip(i + 1);
            lemma_lines_shape(rest);
            lemma_breaks_split(s, i);
            let head = strip_cr(s.take(i));
            assert(lines(s) == seq![head] + lines(rest));
            assert(!head.contains('\n')) by {
                if head.contains('\n') {
                    let q = choose|q: int| 0 <= q < head.len() && head[q] == '\n';
                    assert(s.take(i)[q] == '\n');
                }
            }
            assert forall|k: int| 0 <= k < lines(s).len() implies !(#[trigger] lines(s)[k]).contains('\n') by {
                if k > 0 {
                    assert(lines(s)[k] == lines(rest)[k - 1]);
                }
            }
            if rest.len() > 0 {
                assert(rest.last() == s.last());
            }
        }
    }
}

/// The number of line breaks in `s`.
pub open spec fn line_breaks(s: Seq<char>) -> int
    decreases s.len(),
{
    if s.len() == 0 {
        0
    } else {
        line_breaks(s.drop_last()) + if s.last() == '\n' {
            1int
        } else {
            0int
        }
    }
}

proof fn lemma_no_breaks(s: Seq<char>)
    requires
        first_index(s, '\n') >= s.len(),
    ensures
        line_breaks(s) == 0,
        !s.contains('\n'),
    decreases s.len(),
{
    lemma_first_index(s, '\n');
    if s.len() > 0 {
        assert forall|k: int| 0 <= k < s.len() - 1 implies s.drop_last()[k] != '\n' by {
            assert(s.drop_last()[k] == s[k]);
        }
        lemma_first_index_is(s.drop_last(), '\n', s.len() - 1);
        lemma_no_breaks(s.drop_last());
    }
}

proof fn lemma_breaks_concat(a: Seq<char>, b: Seq<char>)
    ensures
        line_breaks(a + b) == line_breaks(a) + line_breaks(b),
    decreases b.len(),
{
    if b.len() == 0 {
        assert(a + b == a);
    } else {
        lemma_breaks_concat(a, b.drop_last());
        assert((a + b).drop_last() == a + b.drop_last());
    }
}

proof fn lemma_breaks_split(s: Seq<char>, i: int)
    requires
        0 <= i < s.len(),
        first_index(s, '\n') == i,
    ensures
        line_breaks(s) == 1 + line_breaks(s.skip(i + 1)),
{
    lemma_first_index(s, '\n');
    let a = s.take(i);
    assert forall|k: int| 0 <= k < a.len() implies a[k] != '\n' by {
        assert(a[k] == s[k]);
    }
    lemma_first_index_is(a, '\n', i);
    lemma_no_breaks(a);
    assert(s == a + seq!['\n'] + s.skip(i + 1));
    lemma_breaks_concat(a + seq!['\n'], s.skip(i + 1));
    lemma_breaks_concat(a, seq!['\n']);
    assert(seq!['\n'].drop_last() == Seq::<char>::empty());
    assert(seq!['\n'].last() == '\n');
    assert(line_breaks(Seq::<char>::empty()) == 0);
    assert(line_breaks(seq!['\n']) == 1);
}

/// Every word of `s` is a non-empty run of characters none of which is whitespace, taken
/// from `s`.
pub proof fn lemma_words_shape(s: Seq<char>)
    ensures
        forall|k: int|
            0 <= k < words(s).len() ==> (#[trigger] words(s)[k]).len() > 0 && forall|q: int|
                0 <= q < words(s)[k].len() ==> !is_ws(words(s)[k][q]),
    decreases s.len(),
{
    if s.len() > 0 {
        lemma_first_ws(s);
        let i = first_ws(s) as int;
        if i >= s.len() {
            assert(words(s) == seq![s]);
            assert(words(s)[0] == s);
            assert forall|q: int| 0 <= q < s.len() implies !is_ws(s[q]) by {}
        } else if i == 0 {
            lemma_words_shape(s.skip(1));
            assert(words(s) == words(s.skip(1)));
        } else {
            let rest = s.skip(i + 1);
            lemma_words_shape(rest);
            assert(words(s) == seq![s.take(i)] + words(rest));
            assert forall|k: int| 0 <= k < words(s).len() implies (#[trigger] words(s)[k]).len() > 0
                && forall|q: int| 0 <= q < words(s)[k].len() ==> !is_ws(words(s)[k][q]) by {
                if k > 0 {
                    assert(words(s)[k] == words(rest)[k - 1]);
                } else {
                    assert(words(s)[0] == s.take(i));
                }
            }
        }
    }
}

/// Padding to `w` characters keeps the text, makes it `w` characters long when it was
/// shorter (and leaves it alone otherwise), and adds only spaces: after the text on the
/// right, before it on the left.
pub proof fn lemma_padding(s: Seq<char>, w: nat)
    ensures
        pad_right(s, w).len() == if s.len() < w { w as int } else { s.len() as int },
        pad_left(s, w).len() == if s.len() < w { w as int } else { s.len() as int },
        pad_right(s, w).take(s.len() as int) == s,
        pad_left(s, w).skip(pad_left(s, w).len() - s.len()) == s,
        forall|k: int| s.len() <= k < pad_right(s, w).len() ==> #[trigger] pad_right(s, w)[k] == ' ',
        forall|k: int| 0 <= k < pad_left(s, w).len() - s.len() ==> #[trigger] pad_left(s, w)[k] == ' ',
{
    if s.len() < w {
        assert((s + repeat(' ', (w - s.len()) as nat)).take(s.len() as int) == s);
        assert((repeat(' ', (w - s.len()) as nat) + s).skip(w - s.len()) == s);
    } else {
        assert(s.take(s.len() as int) == s);
        assert(s.skip(0) == s);
    }
}

/// `w` stands at position `i` of `s` as its first word: only whitespace before it, and the
/// end or whitespace after it.
pub open spec fn first_word_at(s: Seq<char>, w: Seq<char>, i: int) -> bool {
    &&& 0 <= i
    &&& i + w.len() <= s.len()
    &&& s.subrange(i, i + w.len()) == w
    &&& forall|k: int| 0 <= k < i ==> is_ws(#[trigger] s[k])
    &&& i + w.len() == s.len() || is_ws(s[i + w.len()])
}

/// The first word of a text is what follows its leading whitespace, up to the next
/// whitespace or the end.
pub proof fn lemma_first_word(s: Seq<char>)
    requires
        words(s).len() > 0,
    ensures
        exists|i: int| #[trigger] first_word_at(s, words(s)[0], i),
    decreases s.len(),
{
    lemma_first_ws(s);
    lemma_words_shape(s);
    let i0 = first_ws(s) as int;
    if i0 >= s.len() {
        assert(words(s)[0] == s);
        assert(s.subrange(0, s.len() as int) == s);
        assert(first_word_at(s, words(s)[0], 0));
    } else if i0 == 0 {
        let t = s.skip(1);
        assert(words(s) == words(t));
        lemma_first_word(t);
        let w = words(t)[0];
        let j = choose|j: int| #[trigger] first_word_at(t, w, j);
        assert(s.subrange(j + 1, j + 1 + w.len()) == t.subrange(j, j + w.len()));
        assert forall|k: int| 0 <= k < j + 1 implies is_ws(#[trigger] s[k]) by {
            if k > 0 {
                assert(s[k] == t[k - 1]);
            }
        }
        if j + w.len() < t.len() {
            assert(s[j + 1 + w.len()] == t[j + w.len()]);
        }
        assert(first_word_at(s, words(s)[0], j + 1));
    } else {
        assert(words(s)[0] == s.take(i0));
        assert(s.subrange(0, i0) == s.take(i0));
        assert(first_word_at(s, words(s)[0], 0));
    }
}

/// The UTF-8 length of two texts joined is the sum of their lengths.
pub proof fn lemma_byte_len_concat(a: Seq<char>, b: Seq<char>)
    ensures
        byte_len(a + b) == byte_len(a) + byte_len(b),
    decreases b.len(),
{
    if b.len() == 0 {
        assert(a + b == a);
    } else {
        lemma_byte_len_concat(a, b.drop_last());
        assert((a + b).drop_last() == a + b.drop_last());
    }
}

} // verus!
