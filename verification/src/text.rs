//! Text as sequences of characters: the predicates that the matching rules are
//! stated in, and executable functions that decide them.

use vstd::prelude::*;

verus! {

/// `needle` stands in `hay` at position `i`.
pub open spec fn occurs_at(hay: Seq<char>, needle: Seq<char>, i: int) -> bool {
    &&& 0 <= i
    &&& i + needle.len() <= hay.len()
    &&& hay.subrange(i, i + needle.len()) == needle
}

/// `needle` is a contiguous part of `hay`. The empty text is part of every text.
pub open spec fn contains_text(hay: Seq<char>, needle: Seq<char>) -> bool {
    exists|i: int| occurs_at(hay, needle, i)
}

/// `s` begins with `prefix`.
pub open spec fn starts_with(s: Seq<char>, prefix: Seq<char>) -> bool {
    occurs_at(s, prefix, 0)
}

/// `s` ends with `suffix`.
pub open spec fn ends_with(s: Seq<char>, suffix: Seq<char>) -> bool {
    occurs_at(s, suffix, s.len() - suffix.len())
}

/// The position of the last `c` in `s`, or -1 where `s` holds none.
pub open spec fn last_index_of(s: Seq<char>, c: char) -> int
    decreases s.len(),
{
    if s.len() == 0 {
        -1
    } else if s.last() == c {
        s.len() - 1
    } else {
        last_index_of(s.drop_last(), c)
    }
}

/// The position of the first `c` in `s` at or after `from`, or `s.len()` where
/// there is none.
pub open spec fn index_of_from(s: Seq<char>, c: char, from: int) -> int
    decreases s.len() - from,
{
    if from < 0 || from >= s.len() {
        s.len() as int
    } else if s[from] == c {
        from
    } else {
        index_of_from(s, c, from + 1)
    }
}

/// `s` without its leading run of `c`.
pub open spec fn trim_start_char(s: Seq<char>, c: char) -> Seq<char>
    decreases s.len(),
{
    if s.len() > 0 && s[0] == c {
        trim_start_char(s.drop_first(), c)
    } else {
        s
    }
}

/// `s` without its trailing run of `c`.
pub open spec fn trim_end_char(s: Seq<char>, c: char) -> Seq<char>
    decreases s.len(),
{
    if s.len() > 0 && s.last() == c {
        trim_end_char(s.drop_last(), c)
    } else {
        s
    }
}

/// `s` without its leading and trailing runs of `c`.
pub open spec fn trim_char(s: Seq<char>, c: char) -> Seq<char> {
    trim_end_char(trim_start_char(s, c), c)
}

/// `a` comes before `b` in the order of dictionaries, characters compared by
/// their code points: the order in which std compares strings.
pub open spec fn text_lt(a: Seq<char>, b: Seq<char>) -> bool
    decreases a.len(),
{
    if b.len() == 0 {
        false
    } else if a.len() == 0 {
        true
    } else if a[0] != b[0] {
        (a[0] as u32) < (b[0] as u32)
    } else {
        text_lt(a.drop_first(), b.drop_first())
    }
}

/// Of two texts, one comes before the other or they are the same text, and
/// only one of the three holds.
pub proof fn lemma_text_lt_total(a: Seq<char>, b: Seq<char>)
    ensures
        text_lt(a, b) || text_lt(b, a) || a == b,
        !(text_lt(a, b) && text_lt(b, a)),
        !(text_lt(a, b) && a == b),
    decreases a.len(),
{
    if a.len() > 0 && b.len() > 0 && a[0] == b[0] {
        lemma_text_lt_total(a.drop_first(), b.drop_first());
        if a.drop_first() == b.drop_first() {
            assert(a =~= seq![a[0]] + a.drop_first());
            assert(b =~= seq![b[0]] + b.drop_first());
        }
    } else if a.len() == 0 && b.len() == 0 {
        assert(a =~= b);
    } else if a.len() > 0 && b.len() > 0 {
        vstd::utf8::char_u32_cast(a[0], a[0] as u32);
        vstd::utf8::char_u32_cast(b[0], b[0] as u32);
    }
}

/// What comes before a text comes before all that the text comes before.
pub proof fn lemma_text_lt_transitive(a: Seq<char>, b: Seq<char>, c: Seq<char>)
    requires
        text_lt(a, b),
        text_lt(b, c),
    ensures
        text_lt(a, c),
    decreases a.len(),
{
    if a.len() > 0 && a[0] == b[0] && b[0] == c[0] {
        lemma_text_lt_transitive(a.drop_first(), b.drop_first(), c.drop_first());
    }
}

/// What `last_index_of` returns is either -1, with no `c` anywhere in `s`, or
/// the position of a `c` after which no further `c` follows.
pub proof fn lemma_last_index_of(s: Seq<char>, c: char)
    ensures
        -1 <= last_index_of(s, c) < s.len(),
        last_index_of(s, c) >= 0 ==> s[last_index_of(s, c)] == c,
        forall|j: int| last_index_of(s, c) < j < s.len() ==> s[j] != c,
    decreases s.len(),
{
    if s.len() > 0 && s.last() != c {
        lemma_last_index_of(s.drop_last(), c);
        assert forall|j: int| last_index_of(s, c) < j < s.len() implies s[j] != c by {
            if j < s.len() - 1 {
                assert(s.drop_last()[j] == s[j]);
            }
        }
    }
}

/// What `index_of_from` returns is the first position at or after `from` that
/// holds `c`, or the length of `s`.
pub proof fn lemma_index_of_from(s: Seq<char>, c: char, from: int)
    requires
        0 <= from <= s.len(),
    ensures
        from <= index_of_from(s, c, from) <= s.len(),
        index_of_from(s, c, from) < s.len() ==> s[index_of_from(s, c, from)] == c,
        forall|j: int| from <= j < index_of_from(s, c, from) ==> s[j] != c,
    decreases s.len() - from,
{
    if from < s.len() && s[from] != c {
        lemma_index_of_from(s, c, from + 1);
    }
}

/// The characters of `s`, one by one.
pub fn chars_of(s: &str) -> (v: Vec<char>)
    ensures
        v@ == s@,
{
    let mut v: Vec<char> = Vec::new();
    for c in it: s.chars()
        invariant
            v@ == it.seq().take(it.index() as int),
            it.seq() == s@,
    {
        v.push(c);
    }
    v
}

/// Calls `String::push` of std: `c` is appended to `s`.
#[verifier::external_body]
fn push_char(s: &mut String, c: char)
    ensures
        final(s)@ == old(s)@.push(c),
{
    s.push(c)
}

/// The text made of the characters of `v`.
pub fn string_of(v: &Vec<char>) -> (s: String)
    ensures
        s@ == v@,
{
    let mut s = String::new();
    let mut i: usize = 0;
    while i < v.len()
        invariant
            i <= v.len(),
            s@ == v@.take(i as int),
        decreases v.len() - i,
    {
        push_char(&mut s, v[i]);
        proof {
            assert(v@.take(i + 1) =~= v@.take(i as int).push(v@[i as int]));
        }
        i += 1;
    }
    proof {
        assert(v@.take(v.len() as int) =~= v@);
    }
    s
}

/// Calls `String::from_utf8` of std: the text that `v` holds in UTF-8, and
/// none where `v` is not UTF-8.
#[verifier::external_body]
pub(crate) fn string_from_utf8(v: Vec<u8>) -> (r: Option<String>)
    ensures
        r is Some <==> vstd::utf8::valid_utf8(v@),
        r matches Some(s) ==> s@ == vstd::utf8::decode_utf8(v@),
{
    String::from_utf8(v).ok()
}

/// The part of `v` from `from` up to `to`, as a vector of its own.
pub fn slice_of(v: &Vec<char>, from: usize, to: usize) -> (r: Vec<char>)
    requires
        from <= to <= v.len(),
    ensures
        r@ == v@.subrange(from as int, to as int),
{
    let mut r: Vec<char> = Vec::new();
    let mut i: usize = from;
    while i < to
        invariant
            from <= i <= to <= v.len(),
            r@ == v@.subrange(from as int, i as int),
        decreases to - i,
    {
        r.push(v[i]);
        i += 1;
    }
    r
}

/// Whether two texts hold the same characters.
pub fn same_chars(a: &Vec<char>, b: &Vec<char>) -> (r: bool)
    ensures
        r == (a@ == b@),
{
    if a.len() != b.len() {
        return false;
    }
    let mut i: usize = 0;
    while i < a.len()
        invariant
            i <= a.len(),
            a.len() == b.len(),
            a@.take(i as int) == b@.take(i as int),
        decreases a.len() - i,
    {
        if a[i] != b[i] {
            return false;
        }
        assert(a@.take(i + 1) == a@.take(i as int).push(a@[i as int]));
        assert(b@.take(i + 1) == b@.take(i as int).push(b@[i as int]));
        i += 1;
    }
    assert(a@.take(a.len() as int) == a@);
    assert(b@.take(b.len() as int) == b@);
    true
}

/// Whether two strings hold the same characters.
pub fn same_text(a: &str, b: &str) -> (r: bool)
    ensures
        r == (a@ == b@),
{
    let x = chars_of(a);
    let y = chars_of(b);
    same_chars(&x, &y)
}

/// Whether `a` comes before `b` in the order of dictionaries.
pub fn lt_chars(a: &Vec<char>, b: &Vec<char>) -> (r: bool)
    ensures
        r == text_lt(a@, b@),
{
    let mut i: usize = 0;
    assert(a@.skip(0) == a@ && b@.skip(0) == b@);
    while i < a.len() && i < b.len()
        invariant
            i <= a.len(),
            i <= b.len(),
            text_lt(a@, b@) == text_lt(a@.skip(i as int), b@.skip(i as int)),
        decreases a.len() - i,
    {
        if a[i] != b[i] {
            return (a[i] as u32) < (b[i] as u32);
        }
        assert(a@.skip(i as int).drop_first() == a@.skip(i + 1));
        assert(b@.skip(i as int).drop_first() == b@.skip(i + 1));
        i += 1;
    }
    i < b.len()
}

/// Whether `needle` stands in `hay` at position `i`.
pub fn occurs_at_exec(hay: &Vec<char>, needle: &Vec<char>, i: usize) -> (r: bool)
    ensures
        r == occurs_at(hay@, needle@, i as int),
{
    if needle.len() > hay.len() || i > hay.len() - needle.len() {
        return false;
    }
    let mut k: usize = 0;
    while k < needle.len()
        invariant
            k <= needle.len(),
            i + needle.len() <= hay.len(),
            hay@.subrange(i as int, i + k) == needle@.take(k as int),
        decreases needle.len() - k,
    {
        if hay[i + k] != needle[k] {
            assert(hay@.subrange(i as int, i + needle.len())[k as int] != needle@[k as int]);
            return false;
        }
        assert(hay@.subrange(i as int, i + k + 1) == hay@.subrange(i as int, i + k).push(
            hay@[i + k],
        ));
        assert(needle@.take(k + 1) == needle@.take(k as int).push(needle@[k as int]));
        k += 1;
    }
    assert(needle@.take(needle.len() as int) == needle@);
    true
}

/// Whether `needle` is a contiguous part of `hay`.
pub fn contains_chars(hay: &Vec<char>, needle: &Vec<char>) -> (r: bool)
    ensures
        r == contains_text(hay@, needle@),
{
    if needle.len() > hay.len() {
        return false;
    }
    let last: usize = hay.len() - needle.len();
    let mut i: usize = 0;
    loop
        invariant
            i <= last,
            last == hay.len() - needle.len(),
            forall|j: int| 0 <= j < i ==> !occurs_at(hay@, needle@, j),
        decreases last - i,
    {
        if occurs_at_exec(hay, needle, i) {
            return true;
        }
        if i == last {
            return false;
        }
        i += 1;
    }
}

/// Whether `s` begins with `prefix`.
pub fn starts_with_chars(s: &Vec<char>, prefix: &Vec<char>) -> (r: bool)
    ensures
        r == starts_with(s@, prefix@),
{
    occurs_at_exec(s, prefix, 0)
}

/// The position of the last `c` in `s`.
pub fn last_index_of_char(s: &Vec<char>, c: char) -> (r: Option<usize>)
    ensures
        match r {
            Some(i) => i as int == last_index_of(s@, c),
            None => last_index_of(s@, c) == -1,
        },
{
    let mut i: usize = s.len();
    assert(s@.take(s.len() as int) == s@);
    while i > 0
        invariant
            i <= s.len(),
            last_index_of(s@, c) == last_index_of(s@.take(i as int), c),
        decreases i,
    {
        i -= 1;
        assert(s@.take(i + 1).drop_last() == s@.take(i as int));
        if s[i] == c {
            return Some(i);
        }
    }
    None
}

/// `s` without its leading and trailing runs of `c`.
pub fn trim_chars(s: &Vec<char>, c: char) -> (r: Vec<char>)
    ensures
        r@ == trim_char(s@, c),
{
    let mut from: usize = 0;
    assert(s@.skip(0) == s@);
    while from < s.len() && s[from] == c
        invariant
            from <= s.len(),
            trim_start_char(s@, c) == trim_start_char(s@.skip(from as int), c),
        decreases s.len() - from,
    {
        assert(s@.skip(from as int).drop_first() == s@.skip(from + 1));
        from += 1;
    }
    let mut to: usize = s.len();
    assert(s@.subrange(from as int, s.len() as int) == s@.skip(from as int));
    while to > from && s[to - 1] == c
        invariant
            from <= to <= s.len(),
            trim_start_char(s@, c) == s@.skip(from as int),
            trim_char(s@, c) == trim_end_char(s@.subrange(from as int, to as int), c),
        decreases to,
    {
        assert(s@.subrange(from as int, to as int).drop_last() == s@.subrange(
            from as int,
            to - 1,
        ));
        to -= 1;
    }
    slice_of(s, from, to)
}

/// `s` without its trailing run of `c`.
pub fn trim_end_chars(s: &Vec<char>, c: char) -> (r: Vec<char>)
    ensures
        r@ == trim_end_char(s@, c),
{
    let mut to: usize = s.len();
    assert(s@.take(s.len() as int) == s@);
    while to > 0 && s[to - 1] == c
        invariant
            to <= s.len(),
            trim_end_char(s@, c) == trim_end_char(s@.take(to as int), c),
        decreases to,
    {
        assert(s@.take(to as int).drop_last() == s@.take(to - 1));
        to -= 1;
    }
    slice_of(s, 0, to)
}

/// The parts of `s` between the occurrences of `c`, from position `from` on:
/// one part more than there are occurrences, so a text that ends in `c` has
/// an empty last part.
pub open spec fn split_from(s: Seq<char>, c: char, from: int) -> Seq<Seq<char>>
    decreases s.len() - from,
{
    let next = index_of_from(s, c, from);
    if from < 0 || from > s.len() || next >= s.len() || next < from {
        seq![s.skip(from)]
    } else {
        seq![s.subrange(from, next)] + split_from(s, c, next + 1)
    }
}

/// The parts of `s` between the occurrences of `c`.
pub open spec fn split_text(s: Seq<char>, c: char) -> Seq<Seq<char>> {
    split_from(s, c, 0)
}

/// The texts of `parts` in a row, with `sep` between each two.
pub open spec fn join_text(parts: Seq<Seq<char>>, sep: Seq<char>) -> Seq<char>
    decreases parts.len(),
{
    if parts.len() == 0 {
        Seq::empty()
    } else if parts.len() == 1 {
        parts[0]
    } else {
        join_text(parts.drop_last(), sep) + sep + parts.last()
    }
}

/// Whether `c` is white space: one of the characters that Unicode lists
/// under the property White_Space.
pub open spec fn is_space(c: char) -> bool {
    let u = c as u32;
    ||| 0x09 <= u <= 0x0d
    ||| u == 0x20
    ||| u == 0x85
    ||| u == 0xa0
    ||| u == 0x1680
    ||| 0x2000 <= u <= 0x200a
    ||| u == 0x2028
    ||| u == 0x2029
    ||| u == 0x202f
    ||| u == 0x205f
    ||| u == 0x3000
}

/// `s` without its leading white space.
pub open spec fn trim_start_space(s: Seq<char>) -> Seq<char>
    decreases s.len(),
{
    if s.len() > 0 && is_space(s[0]) {
        trim_start_space(s.drop_first())
    } else {
        s
    }
}

/// `s` without its trailing white space.
pub open spec fn trim_end_space(s: Seq<char>) -> Seq<char>
    decreases s.len(),
{
    if s.len() > 0 && is_space(s.last()) {
        trim_end_space(s.drop_last())
    } else {
        s
    }
}

/// `s` without white space at either end.
pub open spec fn trim_space(s: Seq<char>) -> Seq<char> {
    trim_end_space(trim_start_space(s))
}

/// `s` with every occurrence of `from` replaced by `to`, the occurrences
/// taken from the left and not overlapping. `from` is not empty.
pub open spec fn replace_text(s: Seq<char>, from: Seq<char>, to: Seq<char>) -> Seq<char>
    decreases s.len(),
{
    if from.len() == 0 || s.len() < from.len() {
        s
    } else if occurs_at(s, from, 0) {
        to + replace_text(s.skip(from.len() as int), from, to)
    } else {
        seq![s[0]] + replace_text(s.drop_first(), from, to)
    }
}

/// The digit for a number below ten.
pub open spec fn digit_char(d: nat) -> char {
    if d == 0 {
        '0'
    } else if d == 1 {
        '1'
    } else if d == 2 {
        '2'
    } else if d == 3 {
        '3'
    } else if d == 4 {
        '4'
    } else if d == 5 {
        '5'
    } else if d == 6 {
        '6'
    } else if d == 7 {
        '7'
    } else if d == 8 {
        '8'
    } else {
        '9'
    }
}

/// The decimal digits of `n`, without leading zeros; `0` for zero.
pub open spec fn decimal(n: nat) -> Seq<char>
    decreases n,
{
    if n < 10 {
        seq![digit_char(n)]
    } else {
        decimal(n / 10).push(digit_char(n % 10))
    }
}

/// Whether `c` is one of the digits `0` to `9`.
pub open spec fn is_digit(c: char) -> bool {
    '0' <= c <= '9'
}

/// The number that a digit stands for.
pub open spec fn digit_value(c: char) -> nat {
    (c as u32 - '0' as u32) as nat
}

/// The number that a text of digits stands for; leading zeros count for
/// nothing, and the empty text stands for zero.
pub open spec fn decimal_value(s: Seq<char>) -> nat
    decreases s.len(),
{
    if s.len() == 0 {
        0
    } else {
        decimal_value(s.drop_last()) * 10 + digit_value(s.last())
    }
}

/// Whether `s` is made of digits alone.
pub open spec fn all_digits(s: Seq<char>) -> bool {
    forall|i: int| 0 <= i < s.len() ==> is_digit(#[trigger] s[i])
}

/// Whether `c` is white space.
pub fn is_space_char(c: char) -> (r: bool)
    ensures
        r == is_space(c),
{
    let u: u32 = c as u32;
    (0x09 <= u && u <= 0x0d) || u == 0x20 || u == 0x85 || u == 0xa0 || u == 0x1680 || (0x2000 <= u
        && u <= 0x200a) || u == 0x2028 || u == 0x2029 || u == 0x202f || u == 0x205f || u == 0x3000
}

/// `s` without white space at either end.
pub fn trim_space_chars(s: &Vec<char>) -> (r: Vec<char>)
    ensures
        r@ == trim_space(s@),
{
    let mut from: usize = 0;
    assert(s@.skip(0) == s@);
    while from < s.len() && is_space_char(s[from])
        invariant
            from <= s.len(),
            trim_start_space(s@) == trim_start_space(s@.skip(from as int)),
        decreases s.len() - from,
    {
        assert(s@.skip(from as int).drop_first() == s@.skip(from + 1));
        from += 1;
    }
    let mut to: usize = s.len();
    assert(s@.subrange(from as int, s.len() as int) == s@.skip(from as int));
    while to > from && is_space_char(s[to - 1])
        invariant
            from <= to <= s.len(),
            trim_start_space(s@) == s@.skip(from as int),
            trim_space(s@) == trim_end_space(s@.subrange(from as int, to as int)),
        decreases to,
    {
        assert(s@.subrange(from as int, to as int).drop_last() == s@.subrange(
            from as int,
            to - 1,
        ));
        to -= 1;
    }
    slice_of(s, from, to)
}

/// `s` without its leading white space.
pub fn trim_start_space_chars(s: &Vec<char>) -> (r: Vec<char>)
    ensures
        r@ == trim_start_space(s@),
{
    let mut from: usize = 0;
    assert(s@.skip(0) == s@);
    while from < s.len() && is_space_char(s[from])
        invariant
            from <= s.len(),
            trim_start_space(s@) == trim_start_space(s@.skip(from as int)),
        decreases s.len() - from,
    {
        assert(s@.skip(from as int).drop_first() == s@.skip(from + 1));
        from += 1;
    }
    proof {
        assert(s@.subrange(from as int, s.len() as int) == s@.skip(from as int));
    }
    slice_of(s, from, s.len())
}

/// The position of the first `c` in `s` at or after `from`, or the length of
/// `s` where there is none.
pub fn index_of_char_from(s: &Vec<char>, c: char, from: usize) -> (r: usize)
    requires
        from <= s.len(),
    ensures
        r == index_of_from(s@, c, from as int),
        from <= r <= s.len(),
{
    let mut i: usize = from;
    while i < s.len() && s[i] != c
        invariant
            from <= i <= s.len(),
            index_of_from(s@, c, from as int) == index_of_from(s@, c, i as int),
        decreases s.len() - i,
    {
        i += 1;
    }
    i
}

/// The parts of `s` between the occurrences of `c`.
pub fn split_chars_on(s: &Vec<char>, c: char) -> (r: Vec<Vec<char>>)
    ensures
        r@.map_values(|p: Vec<char>| p@) == split_text(s@, c),
        r.len() >= 1,
{
    let mut parts: Vec<Vec<char>> = Vec::new();
    let mut from: usize = 0;
    let ghost mut done: Seq<Seq<char>> = Seq::empty();
    proof {
        assert(parts@.map_values(|p: Vec<char>| p@) =~= done);
        assert(done + split_from(s@, c, 0) =~= split_text(s@, c));
    }
    loop
        invariant_except_break
            from <= s.len(),
            parts@.map_values(|p: Vec<char>| p@) == done,
            split_text(s@, c) == done + split_from(s@, c, from as int),
        ensures
            parts@.map_values(|p: Vec<char>| p@) == split_text(s@, c),
            parts.len() >= 1,
        decreases s.len() - from,
    {
        let next = index_of_char_from(s, c, from);
        let ghost before = parts@;
        if next >= s.len() {
            let part = slice_of(s, from, s.len());
            parts.push(part);
            proof {
                assert(s@.subrange(from as int, s.len() as int) =~= s@.skip(from as int));
                assert(parts@.map_values(|p: Vec<char>| p@) =~= done.push(s@.skip(from as int)));
                assert(done + seq![s@.skip(from as int)] =~= done.push(s@.skip(from as int)));
            }
            break ;
        }
        let part = slice_of(s, from, next);
        parts.push(part);
        proof {
            let piece = s@.subrange(from as int, next as int);
            assert(parts@.map_values(|p: Vec<char>| p@) =~= done.push(piece));
            assert(done + (seq![piece] + split_from(s@, c, next + 1)) =~= done.push(piece)
                + split_from(s@, c, next + 1));
            done = done.push(piece);
        }
        from = next + 1;
    }
    parts
}

/// The texts of `parts` in a row, with `sep` between each two.
pub fn join_chars(parts: &Vec<Vec<char>>, sep: &Vec<char>) -> (r: Vec<char>)
    ensures
        r@ == join_text(parts@.map_values(|p: Vec<char>| p@), sep@),
{
    let ghost all = parts@.map_values(|p: Vec<char>| p@);
    let mut out: Vec<char> = Vec::new();
    let mut i: usize = 0;
    proof {
        assert(all.take(0) =~= Seq::<Seq<char>>::empty());
    }
    while i < parts.len()
        invariant
            i <= parts.len(),
            all == parts@.map_values(|p: Vec<char>| p@),
            out@ == join_text(all.take(i as int), sep@),
        decreases parts.len() - i,
    {
        let ghost before = out@;
        if i > 0 {
            append_chars(&mut out, sep);
        }
        append_chars(&mut out, &parts[i]);
        proof {
            let grown = all.take(i + 1);
            assert(grown.drop_last() =~= all.take(i as int));
            assert(grown.last() == parts[i as int]@);
            if i == 0 {
                assert(before =~= Seq::<char>::empty());
                assert(out@ =~= parts[i as int]@);
            }
        }
        i += 1;
    }
    proof {
        assert(all.take(parts.len() as int) =~= all);
    }
    out
}

/// Appends the characters of `more` to `out`.
pub fn append_chars(out: &mut Vec<char>, more: &Vec<char>)
    ensures
        final(out)@ == old(out)@ + more@,
{
    let ghost before = out@;
    let mut i: usize = 0;
    while i < more.len()
        invariant
            i <= more.len(),
            out@ == before + more@.take(i as int),
        decreases more.len() - i,
    {
        out.push(more[i]);
        proof {
            assert(before + more@.take(i + 1) =~= (before + more@.take(i as int)).push(
                more@[i as int],
            ));
        }
        i += 1;
    }
    proof {
        assert(more@.take(more.len() as int) =~= more@);
    }
}

/// `s` with every occurrence of `from` replaced by `to`.
pub fn replace_chars(s: &Vec<char>, from: &Vec<char>, to: &Vec<char>) -> (r: Vec<char>)
    ensures
        r@ == replace_text(s@, from@, to@),
{
    let mut out: Vec<char> = Vec::new();
    if from.len() == 0 {
        append_chars(&mut out, s);
        proof {
            assert(out@ =~= s@);
        }
        return out;
    }
    let mut i: usize = 0;
    proof {
        assert(s@.skip(0) =~= s@);
        assert(out@ + replace_text(s@, from@, to@) =~= replace_text(s@, from@, to@));
    }
    while i < s.len()
        invariant
            i <= s.len(),
            from.len() > 0,
            replace_text(s@, from@, to@) == out@ + replace_text(s@.skip(i as int), from@, to@),
        decreases s.len() - i,
    {
        let ghost before = out@;
        let ghost rest = s@.skip(i as int);
        let hit = occurs_at_exec(s, from, i);
        proof {
            if rest.len() >= from.len() {
                assert(rest.subrange(0, from.len() as int) =~= s@.subrange(
                    i as int,
                    i + from.len(),
                ));
            }
            assert(hit == (rest.len() >= from.len() && occurs_at(rest, from@, 0)));
        }
        if hit {
            append_chars(&mut out, to);
            proof {
                assert(rest.skip(from.len() as int) =~= s@.skip(i + from.len()));
                assert(before + (to@ + replace_text(s@.skip(i + from.len()), from@, to@)) =~= out@
                    + replace_text(s@.skip(i + from.len()), from@, to@));
            }
            i += from.len();
        } else if s.len() - i < from.len() {
            let tail = slice_of(s, i, s.len());
            append_chars(&mut out, &tail);
            proof {
                assert(tail@ =~= rest);
                assert(s@.skip(s.len() as int) =~= Seq::<char>::empty());
                assert(replace_text(Seq::<char>::empty(), from@, to@) =~= Seq::<char>::empty());
                assert(out@ + Seq::<char>::empty() =~= before + rest);
            }
            i = s.len();
        } else {
            out.push(s[i]);
            proof {
                assert(rest.drop_first() =~= s@.skip(i + 1));
                assert(before + (seq![rest[0]] + replace_text(s@.skip(i + 1), from@, to@)) =~= out@
                    + replace_text(s@.skip(i + 1), from@, to@));
            }
            i += 1;
        }
    }
    proof {
        assert(s@.skip(s.len() as int) =~= Seq::<char>::empty());
        assert(out@ + Seq::<char>::empty() =~= out@);
    }
    out
}

/// The digit for a number below ten.
pub fn digit_of(d: u8) -> (c: char)
    requires
        d < 10,
    ensures
        c == digit_char(d as nat),
{
    if d == 0 {
        '0'
    } else if d == 1 {
        '1'
    } else if d == 2 {
        '2'
    } else if d == 3 {
        '3'
    } else if d == 4 {
        '4'
    } else if d == 5 {
        '5'
    } else if d == 6 {
        '6'
    } else if d == 7 {
        '7'
    } else if d == 8 {
        '8'
    } else {
        '9'
    }
}

/// The decimal digits of `n`.
pub fn decimal_chars(n: u64) -> (r: Vec<char>)
    ensures
        r@ == decimal(n as nat),
    decreases n,
{
    if n < 10 {
        let mut r: Vec<char> = Vec::new();
        r.push(digit_of(n as u8));
        r
    } else {
        let mut r = decimal_chars(n / 10);
        r.push(digit_of((n % 10) as u8));
        r
    }
}

/// The number that a text of digits stands for, where it is made of digits
/// alone, is not empty and the number is at most `limit`.
pub fn parse_decimal(s: &Vec<char>, limit: u64) -> (r: Option<u64>)
    ensures
        match r {
            Some(n) => s.len() > 0 && all_digits(s@) && n == decimal_value(s@) && n <= limit,
            None => s.len() == 0 || !all_digits(s@) || decimal_value(s@) > limit,
        },
{
    if s.len() == 0 {
        return None;
    }
    let mut n: u64 = 0;
    let mut i: usize = 0;
    let mut over = false;
    proof {
        assert(s@.take(0) =~= Seq::<char>::empty());
    }
    while i < s.len()
        invariant
            i <= s.len(),
            all_digits(s@.take(i as int)),
            !over ==> n == decimal_value(s@.take(i as int)) && n <= limit,
            over ==> decimal_value(s@.take(i as int)) > limit,
        decreases s.len() - i,
    {
        let c = s[i];
        if !('0' <= c && c <= '9') {
            proof {
                assert(!is_digit(s@[i as int]));
            }
            return None;
        }
        let d: u64 = (c as u32 - '0' as u32) as u64;
        proof {
            let grown = s@.take(i + 1);
            assert(grown.drop_last() =~= s@.take(i as int));
            assert(grown.last() == c);
            assert forall|k: int| 0 <= k < grown.len() implies is_digit(#[trigger] grown[k]) by {
                if k < i {
                    assert(s@.take(i as int)[k] == grown[k]);
                }
            }
        }
        if over || d > limit || n > (limit - d) / 10 {
            proof {
                if !over && d <= limit {
                    assert(n * 10 + d > limit) by (nonlinear_arith)
                        requires
                            n > (limit - d) / 10,
                            d <= limit,
                    ;
                }
                assert(decimal_value(s@.take(i + 1)) > limit) by (nonlinear_arith)
                    requires
                        decimal_value(s@.take(i + 1)) == decimal_value(s@.take(i as int)) * 10 + d,
                        over ==> decimal_value(s@.take(i as int)) > limit,
                        !over ==> decimal_value(s@.take(i as int)) * 10 + d > limit,
                        d >= 0,
                ;
            }
            over = true;
        } else {
            proof {
                assert(n * 10 + d <= limit) by (nonlinear_arith)
                    requires
                        n <= (limit - d) / 10,
                        d <= limit,
                ;
            }
            n = n * 10 + d;
        }
        i += 1;
    }
    proof {
        assert(s@.take(s.len() as int) =~= s@);
    }
    if over {
        None
    } else {
        Some(n)
    }
}

/// The texts held in a list of strings.
pub open spec fn texts(keys: Seq<String>) -> Seq<Seq<char>> {
    keys.map_values(|k: String| k@)
}

/// The texts held in a list of character vectors.
pub open spec fn rows(v: Seq<Vec<char>>) -> Seq<Seq<char>> {
    v.map_values(|p: Vec<char>| p@)
}

/// No text of the list comes before one that stands before it.
pub open spec fn sorted_texts(s: Seq<Seq<char>>) -> bool {
    forall|i: int, j: int| 0 <= i < j < s.len() ==> !text_lt(s[j], s[i])
}

/// The texts of `v` in the order of dictionaries; equal texts keep their
/// order.
pub fn sort_texts(v: &Vec<Vec<char>>) -> (r: Vec<Vec<char>>)
    ensures
        sorted_texts(rows(r@)),
        rows(r@).to_multiset() == rows(v@).to_multiset(),
        r.len() == v.len(),
{
    let mut out: Vec<Vec<char>> = Vec::new();
    let mut i: usize = 0;
    proof {
        assert(rows(v@).take(0) =~= Seq::<Seq<char>>::empty());
        assert(rows(out@) =~= Seq::<Seq<char>>::empty());
    }
    while i < v.len()
        invariant
            i <= v.len(),
            out.len() == i,
            sorted_texts(rows(out@)),
            rows(out@).to_multiset() == rows(v@).take(i as int).to_multiset(),
        decreases v.len() - i,
    {
        let item = slice_of(&v[i], 0, v[i].len());
        proof {
            assert(item@ =~= v[i as int]@);
        }
        let mut j: usize = 0;
        while j < out.len() && !lt_chars(&item, &out[j])
            invariant
                j <= out.len(),
                forall|k: int| 0 <= k < j ==> !text_lt(item@, #[trigger] rows(out@)[k]),
            decreases out.len() - j,
        {
            j += 1;
        }
        let ghost before = rows(out@);
        let ghost held = out@;
        out.insert(j, item);
        proof {
            let after = rows(out@);
            assert(after =~= before.insert(j as int, item@)) by {
                assert(out@ =~= held.insert(j as int, item));
            }
            vstd::seq_lib::to_multiset_insert(before, j as int, item@);
            let grown = rows(v@).take(i + 1);
            assert(grown =~= rows(v@).take(i as int).push(item@));
            vstd::seq_lib::to_multiset_build(rows(v@).take(i as int), item@);
            assert forall|a: int, b: int| 0 <= a < b < after.len() implies !text_lt(
                after[b],
                after[a],
            ) by {
                if b == j {
                    assert(after[a] == before[a]);
                } else if a == j {
                    assert(after[b] == before[b - 1]);
                    assert(text_lt(item@, before[j as int]));
                    if b - 1 > j {
                        assert(!text_lt(before[b - 1], before[j as int]));
                    }
                    if text_lt(before[b - 1], item@) {
                        lemma_text_lt_transitive(before[b - 1], item@, before[j as int]);
                        lemma_text_lt_total(before[j as int], before[j as int]);
                    }
                } else {
                    let x = if a < j { a } else { a - 1 };
                    let y = if b < j { b } else { b - 1 };
                    assert(after[a] == before[x] && after[b] == before[y]);
                }
            }
        }
        i += 1;
    }
    proof {
        assert(rows(v@).take(v.len() as int) =~= rows(v@));
    }
    out
}

} // verus!
