//! Semantic version tags: reading the latest tag, parsing it, and naming the next one.
use vstd::prelude::*;
use crate::text::{
    chars_of, concat, decimal, decimal_chars, decimal_value, digit_char, digit_value, first_index,
    is_digit, lines, parse_digits, parse_u32, parse_unsigned, split_char, split_char_of,
    string_of, strip_plus, trim, trim_chars, views,
};

verus! {

// ---------------------------------------------------------------------------
// Specifications
// ---------------------------------------------------------------------------
/// `s` without any leading `c` (`str::trim_start_matches(c)`).
pub open spec fn strip_leading(s: Seq<char>, c: char) -> Seq<char>
    decreases s.len(),
{
    if s.len() > 0 && s[0] == c {
        strip_leading(s.drop_first(), c)
    } else {
        s
    }
}

/// The pieces that read as `u32` numbers, in order (the others are skipped).
pub open spec fn parsed_numbers(pieces: Seq<Seq<char>>) -> Seq<nat>
    decreases pieces.len(),
{
    if pieces.len() == 0 {
        seq![]
    } else {
        let p = parsed_numbers(pieces.drop_last());
        match parse_unsigned(pieces.last(), u32::MAX as nat) {
            Some(v) => p.push(v),
            None => p,
        }
    }
}

/// The version `(major, minor, patch)` that a tag such as `v1.2.3` names: the dot-separated
/// numbers after the leading `v`s; two numbers give a patch of 0, one gives `x.0.0`, and any
/// other count gives `0.0.0`.
pub open spec fn version_of(tag: Seq<char>) -> (nat, nat, nat) {
    let n = parsed_numbers(split_char(strip_leading(tag, 'v'), '.'));
    if n.len() == 3 {
        (n[0], n[1], n[2])
    } else if n.len() == 2 {
        (n[0], n[1], 0)
    } else if n.len() == 1 {
        (n[0], 0, 0)
    } else {
        (0, 0, 0)
    }
}

/// The tag `v<major>.<minor>.<patch>`.
pub open spec fn tag_text(major: nat, minor: nat, patch: nat) -> Seq<char> {
    seq!['v'] + decimal(major) + seq!['.'] + decimal(minor) + seq!['.'] + decimal(patch)
}

/// The tag used when the repository has none.
pub open spec fn initial_tag() -> Seq<char> {
    seq!['v', '0', '.', '0', '.', '0']
}

/// The latest tag from `git describe --tags --abbrev=0`: its trimmed output, or `v0.0.0`
/// when the command failed or printed nothing.
pub open spec fn latest_tag(success: bool, output: Seq<char>) -> Seq<char> {
    if !success || trim(output).len() == 0 {
        initial_tag()
    } else {
        trim(output)
    }
}

/// Which part of the version a release increases.
#[derive(PartialEq, Eq, Structural, Clone, Copy, Debug)]
pub enum Bump {
    Patch,
    Minor,
    Major,
}

/// The version after a release of kind `b`.
pub open spec fn bumped(b: Bump, major: nat, minor: nat, patch: nat) -> (nat, nat, nat) {
    match b {
        Bump::Patch => (major, minor, patch + 1),
        Bump::Minor => (major, minor + 1, 0),
        Bump::Major => (major + 1, 0, 0),
    }
}

// ---------------------------------------------------------------------------
// Lemmas
// ---------------------------------------------------------------------------
proof fn lemma_decimal(n: nat)
    ensures
        decimal(n).len() > 0,
        forall|k: int| 0 <= k < decimal(n).len() ==> is_digit(#[trigger] decimal(n)[k]),
        decimal_value(decimal(n)) == n,
    decreases n,
{
    let c = digit_char(n % 10);
    assert((c as u32) == 48 + n % 10);
    assert(decimal(n).last() == c);
    assert(digit_value(c) == n % 10);
    if n >= 10 {
        lemma_decimal(n / 10);
        let d = decimal(n / 10);
        assert(decimal(n).drop_last() == d);
        assert(decimal_value(decimal(n)) == decimal_value(d) * 10 + digit_value(c));
        assert((n / 10) * 10 + n % 10 == n) by (nonlinear_arith);
        assert forall|k: int| 0 <= k < decimal(n).len() implies is_digit(#[trigger] decimal(n)[k]) by {
            if k < d.len() {
                assert(decimal(n)[k] == d[k]);
            }
        }
    } else {
        assert(decimal(n).drop_last() == Seq::<char>::empty());
        assert(decimal_value(decimal(n)) == decimal_value(Seq::<char>::empty()) * 10 + digit_value(c));
    }
}

proof fn lemma_parse_decimal(n: nat, max: nat)
    requires
        n <= max,
    ensures
        parse_unsigned(decimal(n), max) == Some(n),
{
    lemma_decimal(n);
    let d = decimal(n);
    assert(is_digit(d[0]));
    assert(strip_plus(d) == d);
}

proof fn lemma_no_char_in_digits(s: Seq<char>, c: char)
    requires
        forall|k: int| 0 <= k < s.len() ==> is_digit(#[trigger] s[k]),
        !is_digit(c),
    ensures
        first_index(s, c) == s.len(),
        split_char(s, c) == seq![s],
{
    assert forall|k: int| 0 <= k < s.len() implies s[k] != c by {
        assert(is_digit(s[k]));
    }
    crate::text::lemma_first_index_is(s, c, s.len() as int);
}

proof fn lemma_split_digits(a: Seq<char>, rest: Seq<char>)
    requires
        forall|k: int| 0 <= k < a.len() ==> is_digit(#[trigger] a[k]),
    ensures
        split_char(a + seq!['.'] + rest, '.') == seq![a] + split_char(rest, '.'),
{
    let s = a + seq!['.'] + rest;
    assert forall|k: int| 0 <= k < a.len() implies s[k] != '.' by {
        assert(s[k] == a[k]);
        assert(is_digit(a[k]));
    }
    crate::text::lemma_first_index_is(s, '.', a.len() as int);
    assert(s.take(a.len() as int) == a);
    assert(s.skip(a.len() + 1 as int) == rest);
}

/// Reading back a tag gives the version it was written from.
pub proof fn lemma_version_of_tag_text(major: nat, minor: nat, patch: nat)
    requires
        major <= u32::MAX,
        minor <= u32::MAX,
        patch <= u32::MAX,
    ensures
        version_of(tag_text(major, minor, patch)) == (major, minor, patch),
{
    let d1 = decimal(major);
    let d2 = decimal(minor);
    let d3 = decimal(patch);
    lemma_decimal(major);
    lemma_decimal(minor);
    lemma_decimal(patch);
    let body = d1 + seq!['.'] + d2 + seq!['.'] + d3;
    let t = tag_text(major, minor, patch);
    assert(t == seq!['v'] + body);
    assert(t.drop_first() == body);
    assert(body[0] == d1[0]);
    assert(is_digit(d1[0]));
    assert(strip_leading(body, 'v') == body);
    assert(strip_leading(t, 'v') == strip_leading(t.drop_first(), 'v'));
    assert(strip_leading(t, 'v') == body);
    lemma_split_digits(d1, d2 + seq!['.'] + d3);
    assert(body == d1 + seq!['.'] + (d2 + seq!['.'] + d3));
    lemma_split_digits(d2, d3);
    lemma_no_char_in_digits(d3, '.');
    let pieces = seq![d1, d2, d3];
    assert(split_char(body, '.') == pieces);
    lemma_parse_decimal(major, u32::MAX as nat);
    lemma_parse_decimal(minor, u32::MAX as nat);
    lemma_parse_decimal(patch, u32::MAX as nat);
    assert(pieces.drop_last() == seq![d1, d2]);
    assert(pieces.drop_last().drop_last() == seq![d1]);
    assert(pieces.drop_last().drop_last().drop_last() == Seq::<Seq<char>>::empty());
    assert(seq![d1].drop_last() == Seq::<Seq<char>>::empty());
    assert(seq![d1].last() == d1);
    assert(parsed_numbers(Seq::<Seq<char>>::empty()) == Seq::<nat>::empty());
    assert(parsed_numbers(seq![d1]) == seq![major]);
    assert(seq![d1, d2].last() == d2);
    assert(pieces.last() == d3);
    assert(parsed_numbers(seq![d1, d2]) == seq![major, minor]);
    assert(parsed_numbers(pieces) == seq![major, minor, patch]);
}

/// Version `a` comes before version `b`: compared by major, then minor, then patch.
pub open spec fn version_lt(a: (nat, nat, nat), b: (nat, nat, nat)) -> bool {
    ||| a.0 < b.0
    ||| a.0 == b.0 && a.1 < b.1
    ||| a.0 == b.0 && a.1 == b.1 && a.2 < b.2
}

/// The tag of a release reads back as the bumped version, and that version comes after
/// the one it was bumped from.
pub proof fn lemma_next_tag_reads_back(b: Bump, major: nat, minor: nat, patch: nat)
    requires
        major <= u32::MAX,
        minor <= u32::MAX,
        patch <= u32::MAX,
        match b {
            Bump::Patch => patch < u32::MAX,
            Bump::Minor => minor < u32::MAX,
            Bump::Major => major < u32::MAX,
        },
    ensures
        ({
            let v = bumped(b, major, minor, patch);
            &&& version_of(tag_text(v.0, v.1, v.2)) == v
            &&& version_lt((major, minor, patch), v)
        }),
{
    let v = bumped(b, major, minor, patch);
    lemma_version_of_tag_text(v.0, v.1, v.2);
}

// ---------------------------------------------------------------------------
// Executable
// ---------------------------------------------------------------------------
/// The latest tag, from whether `git describe --tags --abbrev=0` succeeded and what it
/// printed.
pub fn get_latest_tag(success: bool, describe_output: &str) -> (r: String)
    ensures
        r@ == latest_tag(success, describe_output@),
{
    let cs = chars_of(describe_output);
    let t = trim_chars(cs.as_slice());
    if !success || t.len() == 0 {
        let v: Vec<char> = vec!['v', '0', '.', '0', '.', '0'];
        assert(v@ == initial_tag());
        string_of(v.as_slice())
    } else {
        string_of(t.as_slice())
    }
}

/// The version `(major, minor, patch)` named by `tag`.
pub fn parse_version(tag: &str) -> (r: (u32, u32, u32))
    ensures
        (r.0 as nat, r.1 as nat, r.2 as nat) == version_of(tag@),
{
    let cs = chars_of(tag);
    let mut start: usize = 0;
    assert(cs@.skip(0) == cs@);
    while start < cs.len() && cs[start] == 'v'
        invariant
            start <= cs@.len(),
            strip_leading(tag@, 'v') == strip_leading(cs@.skip(start as int), 'v'),
            cs@ == tag@,
        decreases cs@.len() - start,
    {
        assert(cs@.skip(start as int).drop_first() == cs@.skip(start + 1));
        start = start + 1;
    }
    let cleaned = crate::text::slice_vec(cs.as_slice(), start, cs.len());
    assert(cleaned@ == strip_leading(tag@, 'v'));
    let pieces = split_char_of(cleaned.as_slice(), '.');
    let ghost all = split_char(cleaned@, '.');
    let mut parts: Vec<u32> = Vec::new();
    let n = pieces.len();
    assert(all.take(0) == Seq::<Seq<char>>::empty());
    for i in 0..n
        invariant
            n == pieces@.len() == all.len(),
            views(pieces@) == all,
            parts@.map_values(|x: u32| x as nat) == parsed_numbers(all.take(i as int)),
    {
        assert(all.take(i + 1).drop_last() == all.take(i as int));
        assert(all.take(i + 1).last() == pieces@[i as int]@);
        let ghost before = parts@;
        match parse_u32(pieces[i].as_slice()) {
            Some(v) => {
                parts.push(v);
                assert(parts@.map_values(|x: u32| x as nat) == before.map_values(|x: u32| x as nat).push(
                    v as nat,
                ));
            },
            None => {},
        }
    }
    assert(all.take(n as int) == all);
    let ghost nums = parts@.map_values(|x: u32| x as nat);
    if parts.len() == 3 {
        assert(nums[0] == parts@[0] && nums[1] == parts@[1] && nums[2] == parts@[2]);
        (parts[0], parts[1], parts[2])
    } else if parts.len() == 2 {
        assert(nums[0] == parts@[0] && nums[1] == parts@[1]);
        (parts[0], parts[1], 0)
    } else if parts.len() == 1 {
        assert(nums[0] == parts@[0]);
        (parts[0], 0, 0)
    } else {
        (0, 0, 0)
    }
}

/// The characters of `tag_text(major, minor, patch)`.
fn tag_chars(major: u32, minor: u32, patch: u32) -> (r: Vec<char>)
    ensures
        r@ == tag_text(major as nat, minor as nat, patch as nat),
{
    let v: Vec<char> = vec!['v'];
    let dot: Vec<char> = vec!['.'];
    let a = concat(v.as_slice(), decimal_chars(major as u64).as_slice());
    let b = concat(a.as_slice(), dot.as_slice());
    let c = concat(b.as_slice(), decimal_chars(minor as u64).as_slice());
    let d = concat(c.as_slice(), dot.as_slice());
    concat(d.as_slice(), decimal_chars(patch as u64).as_slice())
}

/// The tag `v<major>.<minor>.<patch>`.
pub fn version_tag(major: u32, minor: u32, patch: u32) -> (r: String)
    ensures
        r@ == tag_text(major as nat, minor as nat, patch as nat),
{
    string_of(tag_chars(major, minor, patch).as_slice())
}

/// The release kind offered at position `selection` of the version menu
/// (patch, minor, major).
pub fn bump_for_selection(selection: usize) -> (r: Bump)
    requires
        selection < 3,
    ensures
        r == (if selection == 0 {
            Bump::Patch
        } else if selection == 1 {
            Bump::Minor
        } else {
            Bump::Major
        }),
{
    if selection == 0 {
        Bump::Patch
    } else if selection == 1 {
        Bump::Minor
    } else {
        Bump::Major
    }
}

/// The tag of the next release of kind `b` after `v<major>.<minor>.<patch>`.
pub fn next_tag(b: Bump, major: u32, minor: u32, patch: u32) -> (r: String)
    requires
        match b {
            Bump::Patch => patch < u32::MAX,
            Bump::Minor => minor < u32::MAX,
            Bump::Major => major < u32::MAX,
        },
    ensures
        ({
            let v = bumped(b, major as nat, minor as nat, patch as nat);
            r@ == tag_text(v.0, v.1, v.2)
        }),
{
    match b {
        Bump::Patch => version_tag(major, minor, patch + 1),
        Bump::Minor => version_tag(major, minor + 1, 0),
        Bump::Major => version_tag(major + 1, 0, 0),
    }
}

/// The three menu entries offered after `v<major>.<minor>.<patch>`:
/// `Patch: <tag> (Bug fixes)`, `Minor: <tag> (New features)`, `Major: <tag> (Breaking changes)`.
pub fn version_options(major: u32, minor: u32, patch: u32) -> (r: Vec<String>)
    requires
        major < u32::MAX,
        minor < u32::MAX,
        patch < u32::MAX,
    ensures
        r@.len() == 3,
        r@[0]@ == "Patch: "@ + tag_text(major as nat, minor as nat, (patch + 1) as nat) + " (Bug fixes)"@,
        r@[1]@ == "Minor: "@ + tag_text(major as nat, (minor + 1) as nat, 0) + " (New features)"@,
        r@[2]@ == "Major: "@ + tag_text((major + 1) as nat, 0, 0) + " (Breaking changes)"@,
{
    let p = concat(
        concat(chars_of("Patch: ").as_slice(), tag_chars(major, minor, patch + 1).as_slice()).as_slice(),
        chars_of(" (Bug fixes)").as_slice(),
    );
    let m = concat(
        concat(chars_of("Minor: ").as_slice(), tag_chars(major, minor + 1, 0).as_slice()).as_slice(),
        chars_of(" (New features)").as_slice(),
    );
    let j = concat(
        concat(chars_of("Major: ").as_slice(), tag_chars(major + 1, 0, 0).as_slice()).as_slice(),
        chars_of(" (Breaking changes)").as_slice(),
    );
    let mut r: Vec<String> = Vec::new();
    r.push(string_of(p.as_slice()));
    r.push(string_of(m.as_slice()));
    r.push(string_of(j.as_slice()));
    r
}

/// The annotation of a release tag: `Release <tag>`.
pub fn release_message(tag: &str) -> (r: String)
    ensures
        r@ == "Release "@ + tag@,
{
    let m = concat(chars_of("Release ").as_slice(), chars_of(tag).as_slice());
    string_of(m.as_slice())
}

/// A tag of two numbers reads as `<major>.<minor>.0`, a tag of one number as
/// `<major>.0.0`, any number of leading `v`s is skipped, and the tag used when there is
/// none is `v0.0.0`.
pub proof fn lemma_short_tags(major: nat, minor: nat, t: Seq<char>)
    requires
        major <= u32::MAX,
        minor <= u32::MAX,
    ensures
        version_of(seq!['v'] + decimal(major) + seq!['.'] + decimal(minor)) == (major, minor, 0nat),
        version_of(seq!['v'] + decimal(major)) == (major, 0nat, 0nat),
        version_of(seq!['v'] + t) == version_of(t),
        initial_tag() == "v0.0.0"@,
{
    reveal_strlit("v0.0.0");
    assert(initial_tag() =~= "v0.0.0"@);
    let d1 = decimal(major);
    let d2 = decimal(minor);
    lemma_decimal(major);
    lemma_decimal(minor);
    lemma_parse_decimal(major, u32::MAX as nat);
    lemma_parse_decimal(minor, u32::MAX as nat);
    assert(is_digit(d1[0]));
    // two numbers
    let body2 = d1 + seq!['.'] + d2;
    let t2 = seq!['v'] + d1 + seq!['.'] + d2;
    assert(t2 == seq!['v'] + body2);
    assert((seq!['v'] + body2).drop_first() == body2);
    assert(body2[0] == d1[0]);
    assert(strip_leading(body2, 'v') == body2);
    assert(strip_leading(t2, 'v') == body2);
    lemma_split_digits(d1, d2);
    lemma_no_char_in_digits(d2, '.');
    let p2 = seq![d1, d2];
    assert(split_char(body2, '.') == p2);
    assert(p2.drop_last() == seq![d1]);
    assert(seq![d1].drop_last() == Seq::<Seq<char>>::empty());
    assert(parsed_numbers(Seq::<Seq<char>>::empty()) == Seq::<nat>::empty());
    assert(parsed_numbers(seq![d1]) == seq![major]);
    assert(parsed_numbers(p2) == seq![major, minor]);
    // one number
    let t1 = seq!['v'] + d1;
    assert(t1.drop_first() == d1);
    assert(strip_leading(d1, 'v') == d1);
    assert(strip_leading(t1, 'v') == d1);
    lemma_no_char_in_digits(d1, '.');
    assert(split_char(d1, '.') == seq![d1]);
    // leading v
    let tv = seq!['v'] + t;
    assert(tv.drop_first() == t);
    assert(strip_leading(tv, 'v') == strip_leading(t, 'v'));
}

/// Reading a number back: the decimal digits of `n`, with or without a leading `+`, read
/// as `n` when it fits and as nothing when it does not; an empty text, and a text with a
/// character that is not a digit (past one leading `+`), read as nothing.
pub proof fn lemma_parse_numbers(n: nat, max: nat, s: Seq<char>, k: int)
    ensures
        n <= max ==> parse_unsigned(decimal(n), max) == Some(n),
        n <= max ==> parse_unsigned(seq!['+'] + decimal(n), max) == Some(n),
        n > max ==> parse_unsigned(decimal(n), max) is None,
        parse_unsigned(Seq::<char>::empty(), max) is None,
        (0 <= k < s.len() && !is_digit(s[k]) && !(k == 0 && s[0] == '+')) ==> parse_unsigned(s, max) is None,
{
    lemma_decimal(n);
    let d = decimal(n);
    assert(is_digit(d[0]));
    assert(strip_plus(d) == d);
    assert((seq!['+'] + d).drop_first() == d);
    assert(strip_plus(seq!['+'] + d) == d);
    if n <= max {
        lemma_parse_decimal(n, max);
    }
    if 0 <= k < s.len() && !is_digit(s[k]) && !(k == 0 && s[0] == '+') {
        let t = strip_plus(s);
        if s.len() > 0 && s[0] == '+' {
            assert(t[k - 1] == s[k]);
        } else {
            assert(t[k] == s[k]);
        }
    }
}

} // verus!
