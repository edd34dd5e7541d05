//! Character-level helpers: decimal numbers, trimming and conversions between
//! `String` and vectors of characters.
use vstd::prelude::*;

verus! {

broadcast use vstd::string::group_string_axioms;

pub open spec fn digit_char(d: nat) -> char {
    if d == 0 {
        '0'
    } else if d == 1 {
        '1'
    } else if d == 2 {
        '2'
    } else if d == 3 {
        '3'
    } else if d == 4 {
        '4'
    } else if d == 5 {
        '5'
    } else if d == 6 {
        '6'
    } else if d == 7 {
        '7'
    } else if d == 8 {
        '8'
    } else {
        '9'
    }
}

/// The decimal digits of `n`, most significant first, without leading zeros.
pub open spec fn decimal(n: nat) -> Seq<char>
    decreases n,
{
    if n < 10 {
        seq![digit_char(n)]
    } else {
        decimal(n / 10).push(digit_char(n % 10))
    }
}

fn digit(d: u64) -> (c: char)
    requires
        d < 10,
    ensures
        c == digit_char(d as nat),
{
    if d == 0 {
        '0'
    } else if d == 1 {
        '1'
    } else if d == 2 {
        '2'
    } else if d == 3 {
        '3'
    } else if d == 4 {
        '4'
    } else if d == 5 {
        '5'
    } else if d == 6 {
        '6'
    } else if d == 7 {
        '7'
    } else if d == 8 {
        '8'
    } else {
        '9'
    }
}

/// The decimal representation of `n`.
pub fn decimal_chars(n: u64) -> (s: Vec<char>)
    ensures
        s@ == decimal(n as nat),
    decreases n,
{
    if n < 10 {
        let mut s = Vec::new();
        s.push(digit(n));
        s
    } else {
        let mut s = decimal_chars(n / 10);
        s.push(digit(n % 10));
        s
    }
}

/// The characters of `s`, in order.
pub fn chars_of(s: &str) -> (chars: Vec<char>)
    ensures
        chars@ == s@,
{
    let mut chars: Vec<char> = Vec::new();
    for c in it: s.chars()
        invariant
            it.seq() == s@,
            chars@ == it.seq().subrange(0, it.index()),
    {
        chars.push(c);
    }
    chars
}

/// A string holding exactly `chars`.
#[verifier::external_body]
pub fn string_of(chars: &[char]) -> (s: String)
    ensures
        s@ == chars@,
{
    chars.iter().collect()
}

/// Appends `tail` to `head`.
pub fn append_chars(head: &mut Vec<char>, tail: &[char])
    ensures
        final(head)@ == old(head)@ + tail@,
{
    let mut i: usize = 0;
    while i < tail.len()
        invariant
            i <= tail.len(),
            head@ == old(head)@ + tail@.subrange(0, i as int),
        decreases tail.len() - i,
    {
        head.push(tail[i]);
        assert(tail@.subrange(0, i + 1) =~= tail@.subrange(0, i as int).push(tail@[i as int]));
        i = i + 1;
    }
    assert(tail@.subrange(0, tail.len() as int) =~= tail@);
}

/// Whether two character sequences are equal.
pub fn same_chars(a: &[char], b: &[char]) -> (same: bool)
    ensures
        same == (a@ == b@),
{
    if a.len() != b.len() {
        return false;
    }
    let mut i: usize = 0;
    while i < a.len()
        invariant
            i <= a.len(),
            a.len() == b.len(),
            forall|k: int| 0 <= k < i ==> a@[k] == b@[k],
        decreases a.len() - i,
    {
        if a[i] != b[i] {
            return false;
        }
        i = i + 1;
    }
    assert(a@ =~= b@);
    true
}

/// Whether `needle` occurs in `hay`.
pub fn has_char(hay: &[char], needle: char) -> (found: bool)
    ensures
        found == hay@.contains(needle),
{
    let mut i: usize = 0;
    while i < hay.len()
        invariant
            i <= hay.len(),
            forall|k: int| 0 <= k < i ==> hay@[k] != needle,
        decreases hay.len() - i,
    {
        if hay[i] == needle {
            return true;
        }
        i = i + 1;
    }
    false
}

/// The Unicode `White_Space` property, as `char::is_whitespace` reports it.
pub open spec fn is_space(c: char) -> bool {
    let u = c as u32;
    (0x9 <= u <= 0xd) || u == 0x20 || u == 0x85 || u == 0xa0 || u == 0x1680 || (0x2000 <= u <= 0x200a)
        || u == 0x2028 || u == 0x2029 || u == 0x202f || u == 0x205f || u == 0x3000
}

/// The Unicode general category `Cc`, as `char::is_control` reports it.
pub open spec fn is_control(c: char) -> bool {
    let u = c as u32;
    u <= 0x1f || (0x7f <= u <= 0x9f)
}

pub fn char_is_space(c: char) -> (space: bool)
    ensures
        space == is_space(c),
{
    let u = c as u32;
    (0x9 <= u && u <= 0xd) || u == 0x20 || u == 0x85 || u == 0xa0 || u == 0x1680 || (0x2000 <= u && u
        <= 0x200a) || u == 0x2028 || u == 0x2029 || u == 0x202f || u == 0x205f || u == 0x3000
}

pub fn char_is_control(c: char) -> (control: bool)
    ensures
        control == is_control(c),
{
    let u = c as u32;
    u <= 0x1f || (0x7f <= u && u <= 0x9f)
}

/// Whether some character of `s` is a control character.
pub open spec fn has_control(s: Seq<char>) -> bool {
    exists|i: int| 0 <= i < s.len() && is_control(#[trigger] s[i])
}

/// Whether some character of `s` is white space or a control character.
pub open spec fn has_space_or_control(s: Seq<char>) -> bool {
    exists|i: int| 0 <= i < s.len() && (is_space(#[trigger] s[i]) || is_control(s[i]))
}

pub fn any_control(s: &[char]) -> (found: bool)
    ensures
        found == has_control(s@),
{
    let mut i: usize = 0;
    while i < s.len()
        invariant
            i <= s.len(),
            forall|k: int| 0 <= k < i ==> !is_control(#[trigger] s@[k]),
        decreases s.len() - i,
    {
        if char_is_control(s[i]) {
            assert(is_control(s@[i as int]));
            return true;
        }
        i = i + 1;
    }
    false
}

pub fn any_space_or_control(s: &[char]) -> (found: bool)
    ensures
        found == has_space_or_control(s@),
{
    let mut i: usize = 0;
    while i < s.len()
        invariant
            i <= s.len(),
            forall|k: int| 0 <= k < i ==> !(is_space(#[trigger] s@[k]) || is_control(s@[k])),
        decreases s.len() - i,
    {
        if char_is_space(s[i]) || char_is_control(s[i]) {
            assert(is_space(s@[i as int]) || is_control(s@[i as int]));
            return true;
        }
        i = i + 1;
    }
    false
}

/// `s` without leading white space.
pub open spec fn trim_front(s: Seq<char>) -> Seq<char>
    decreases s.len(),
{
    if s.len() > 0 && is_space(s[0]) {
        trim_front(s.drop_first())
    } else {
        s
    }
}

/// `s` without trailing white space.
pub open spec fn trim_back(s: Seq<char>) -> Seq<char>
    decreases s.len(),
{
    if s.len() > 0 && is_space(s.last()) {
        trim_back(s.drop_last())
    } else {
        s
    }
}

/// `s` without leading and trailing white space, as `str::trim` gives it.
pub open spec fn trimmed(s: Seq<char>) -> Seq<char> {
    trim_back(trim_front(s))
}

proof fn lemma_trim_front_skip(s: Seq<char>, i: int)
    requires
        0 <= i <= s.len(),
        forall|k: int| 0 <= k < i ==> is_space(#[trigger] s[k]),
    ensures
        trim_front(s) == trim_front(s.subrange(i, s.len() as int)),
    decreases i,
{
    if i > 0 {
        assert(is_space(s[0]));
        let t = s.drop_first();
        assert forall|k: int| 0 <= k < i - 1 implies is_space(#[trigger] t[k]) by {
            assert(t[k] == s[k + 1]);
        }
        lemma_trim_front_skip(t, i - 1);
        assert(t.subrange(i - 1, t.len() as int) =~= s.subrange(i, s.len() as int));
    } else {
        assert(s.subrange(0, s.len() as int) =~= s);
    }
}

proof fn lemma_trim_back_skip(s: Seq<char>, j: int)
    requires
        0 <= j <= s.len(),
        forall|k: int| j <= k < s.len() ==> is_space(#[trigger] s[k]),
    ensures
        trim_back(s) == trim_back(s.subrange(0, j)),
    decreases s.len() - j,
{
    if j < s.len() {
        assert(is_space(s.last()));
        let t = s.drop_last();
        assert forall|k: int| j <= k < t.len() implies is_space(#[trigger] t[k]) by {
            assert(t[k] == s[k]);
        }
        lemma_trim_back_skip(t, j);
        assert(t.subrange(0, j) =~= s.subrange(0, j));
    } else {
        assert(s.subrange(0, j) =~= s);
    }
}

/// `s` without leading and trailing white space.
pub fn trim_chars(s: &[char]) -> (t: Vec<char>)
    ensures
        t@ == trimmed(s@),
{
    let mut start: usize = 0;
    while start < s.len() && char_is_space(s[start])
        invariant
            start <= s.len(),
            forall|k: int| 0 <= k < start ==> is_space(#[trigger] s@[k]),
        decreases s.len() - start,
    {
        start = start + 1;
    }
    proof {
        lemma_trim_front_skip(s@, start as int);
    }
    let ghost rest = s@.subrange(start as int, s@.len() as int);
    assert(trim_front(rest) == rest);
    let mut end: usize = s.len();
    while end > start && char_is_space(s[end - 1])
        invariant
            start <= end <= s.len(),
            forall|k: int| end <= k < s.len() ==> is_space(#[trigger] s@[k]),
        decreases end - start,
    {
        end = end - 1;
    }
    proof {
        assert forall|k: int| end - start <= k < rest.len() implies is_space(#[trigger] rest[k]) by {
            assert(rest[k] == s@[start + k]);
        }
        lemma_trim_back_skip(rest, end - start);
        let kept = rest.subrange(0, end - start);
        if kept.len() > 0 {
            assert(kept.last() == s@[end - 1]);
        }
        assert(trim_back(kept) == kept);
    }
    let mut t: Vec<char> = Vec::new();
    let mut i: usize = start;
    while i < end
        invariant
            start <= i <= end,
            end <= s.len(),
            t@ == s@.subrange(start as int, i as int),
        decreases end - i,
    {
        t.push(s[i]);
        assert(s@.subrange(start as int, i + 1) =~= s@.subrange(start as int, i as int).push(s@[i as int]));
        i = i + 1;
    }
    assert(t@ =~= rest.subrange(0, end - start));
    t
}

/// The string `s` trimmed of white space, as a new `String`.
pub fn trim_string(s: &String) -> (t: String)
    ensures
        t@ == trimmed(s@),
{
    let chars = chars_of(s.as_str());
    let t = trim_chars(chars.as_slice());
    string_of(t.as_slice())
}

/// Whether `part` occurs in `s` starting at `at`.
pub open spec fn occurs_at(s: Seq<char>, part: Seq<char>, at: int) -> bool {
    0 <= at && at + part.len() <= s.len() && s.subrange(at, at + part.len()) == part
}

/// Whether `part` occurs anywhere in `s`.
pub open spec fn occurs_in(s: Seq<char>, part: Seq<char>) -> bool {
    exists|at: int| #[trigger] occurs_at(s, part, at)
}

/// Whether `part` occurs in `s` starting at `at`.
pub fn matches_at(s: &[char], part: &[char], at: usize) -> (found: bool)
    ensures
        found == occurs_at(s@, part@, at as int),
{
    if at > s.len() || part.len() > s.len() - at {
        return false;
    }
    let mut j: usize = 0;
    while j < part.len()
        invariant
            j <= part.len(),
            at + part.len() <= s.len(),
            forall|k: int| 0 <= k < j ==> s@[at + k] == part@[k],
        decreases part.len() - j,
    {
        if s[at + j] != part[j] {
            assert(s@.subrange(at as int, at + part.len())[j as int] != part@[j as int]);
            return false;
        }
        j = j + 1;
    }
    assert(s@.subrange(at as int, at + part.len()) =~= part@);
    true
}

pub fn contains_chars(s: &[char], part: &[char]) -> (found: bool)
    ensures
        found == occurs_in(s@, part@),
{
    if part.len() > s.len() {
        assert forall|at: int| !occurs_at(s@, part@, at) by {}
        return false;
    }
    let last = s.len() - part.len();
    let mut at: usize = 0;
    loop
        invariant
            last == s.len() - part.len(),
            at <= last,
            forall|k: int| 0 <= k < at ==> !#[trigger] occurs_at(s@, part@, k),
        decreases last - at,
    {
        if matches_at(s, part, at) {
            return true;
        }
        if at == last {
            assert forall|k: int| !#[trigger] occurs_at(s@, part@, k) by {
                if 0 <= k < at {
                }
            }
            return false;
        }
        at = at + 1;
    }
}

/// The number of maximal runs of non-space characters, as
/// `str::split_whitespace` counts them.
pub open spec fn word_count(s: Seq<char>) -> nat
    decreases s.len(),
{
    if s.len() == 0 {
        0
    } else {
        let prev = word_count(s.drop_last());
        if !is_space(s.last()) && (s.len() == 1 || is_space(s[s.len() - 2])) {
            prev + 1
        } else {
            prev
        }
    }
}

pub fn count_words(s: &[char]) -> (count: usize)
    ensures
        count == word_count(s@),
{
    let mut count: usize = 0;
    let mut i: usize = 0;
    while i < s.len()
        invariant
            i <= s.len(),
            count == word_count(s@.subrange(0, i as int)),
            count <= i,
        decreases s.len() - i,
    {
        let ghost next = s@.subrange(0, i + 1);
        assert(next.drop_last() =~= s@.subrange(0, i as int));
        if !char_is_space(s[i]) && (i == 0 || char_is_space(s[i - 1])) {
            count = count + 1;
        }
        i = i + 1;
    }
    assert(s@.subrange(0, s.len() as int) =~= s@);
    count
}

/// The position of the last `c` in `s`, or -1.
pub open spec fn last_index_of(s: Seq<char>, c: char) -> int
    decreases s.len(),
{
    if s.len() == 0 {
        -1
    } else if s.last() == c {
        s.len() - 1
    } else {
        last_index_of(s.drop_last(), c)
    }
}

/// The position of the first `c` in `s`, or -1.
pub open spec fn first_index_of(s: Seq<char>, c: char) -> int
    decreases s.len(),
{
    if s.len() == 0 {
        -1
    } else if s[0] == c {
        0
    } else {
        let rest = first_index_of(s.drop_first(), c);
        if rest < 0 {
            -1
        } else {
            rest + 1
        }
    }
}

/// How often `c` occurs in `s`.
pub open spec fn count_char(s: Seq<char>, c: char) -> nat
    decreases s.len(),
{
    if s.len() == 0 {
        0
    } else {
        count_char(s.drop_last(), c) + if s.last() == c {
            1nat
        } else {
            0nat
        }
    }
}

pub proof fn lemma_last_index_bounds(s: Seq<char>, c: char)
    ensures
        -1 <= last_index_of(s, c) < s.len(),
        last_index_of(s, c) >= 0 ==> s[last_index_of(s, c)] == c,
    decreases s.len(),
{
    if s.len() > 0 && s.last() != c {
        lemma_last_index_bounds(s.drop_last(), c);
    }
}

/// A character that occurs has a last position.
pub proof fn lemma_count_has_last(s: Seq<char>, c: char)
    ensures
        count_char(s, c) > 0 ==> last_index_of(s, c) >= 0,
    decreases s.len(),
{
    if s.len() > 0 && s.last() != c {
        lemma_count_has_last(s.drop_last(), c);
    }
}

pub proof fn lemma_first_index_bounds(s: Seq<char>, c: char)
    ensures
        -1 <= first_index_of(s, c) < s.len(),
        first_index_of(s, c) >= 0 ==> s[first_index_of(s, c)] == c,
        forall|k: int| 0 <= k < s.len() && (first_index_of(s, c) < 0 || k < first_index_of(s, c)) ==> s[k] != c,
    decreases s.len(),
{
    if s.len() > 0 && s[0] != c {
        lemma_first_index_bounds(s.drop_first(), c);
        assert forall|k: int| 0 <= k < s.len() && (first_index_of(s, c) < 0 || k < first_index_of(s, c)) implies s[k] != c by {
            if k > 0 {
                assert(s[k] == s.drop_first()[k - 1]);
            }
        }
    }
}

pub fn last_index(s: &[char], c: char) -> (index: Option<usize>)
    ensures
        match index {
            Some(i) => i == last_index_of(s@, c),
            None => last_index_of(s@, c) == -1,
        },
{
    let mut i: usize = s.len();
    assert(s@.subrange(0, s@.len() as int) =~= s@);
    while i > 0
        invariant
            i <= s.len(),
            last_index_of(s@, c) == last_index_of(s@.subrange(0, i as int), c),
        decreases i,
    {
        let ghost cur = s@.subrange(0, i as int);
        assert(cur.drop_last() =~= s@.subrange(0, i - 1));
        if s[i - 1] == c {
            return Some(i - 1);
        }
        i = i - 1;
    }
    None
}

pub fn first_index(s: &[char], c: char) -> (index: Option<usize>)
    ensures
        match index {
            Some(i) => i == first_index_of(s@, c),
            None => first_index_of(s@, c) == -1,
        },
{
    proof {
        lemma_first_index_bounds(s@, c);
    }
    let mut i: usize = 0;
    while i < s.len()
        invariant
            i <= s.len(),
            forall|k: int| 0 <= k < i ==> s@[k] != c,
            -1 <= first_index_of(s@, c) < s@.len(),
            first_index_of(s@, c) >= 0 ==> s@[first_index_of(s@, c)] == c,
            forall|k: int| 0 <= k < s@.len() && (first_index_of(s@, c) < 0 || k < first_index_of(s@, c)) ==> s@[k] != c,
        decreases s.len() - i,
    {
        if s[i] == c {
            return Some(i);
        }
        i = i + 1;
    }
    None
}

pub fn char_count(s: &[char], c: char) -> (count: usize)
    ensures
        count == count_char(s@, c),
{
    let mut count: usize = 0;
    let mut i: usize = 0;
    while i < s.len()
        invariant
            i <= s.len(),
            count == count_char(s@.subrange(0, i as int), c),
            count <= i,
        decreases s.len() - i,
    {
        let ghost next = s@.subrange(0, i + 1);
        assert(next.drop_last() =~= s@.subrange(0, i as int));
        if s[i] == c {
            count = count + 1;
        }
        i = i + 1;
    }
    assert(s@.subrange(0, s.len() as int) =~= s@);
    count
}

/// The characters of `s` from `start` up to, not including, `end`.
pub fn slice_chars(s: &[char], start: usize, end: usize) -> (part: Vec<char>)
    requires
        start <= end <= s.len(),
    ensures
        part@ == s@.subrange(start as int, end as int),
{
    let mut part: Vec<char> = Vec::new();
    let mut i: usize = start;
    while i < end
        invariant
            start <= i <= end,
            end <= s.len(),
            part@ == s@.subrange(start as int, i as int),
        decreases end - i,
    {
        part.push(s[i]);
        assert(s@.subrange(start as int, i + 1) =~= s@.subrange(start as int, i as int).push(s@[i as int]));
        i = i + 1;
    }
    part
}

pub open spec fn is_digit(c: char) -> bool {
    '0' <= c <= '9'
}

/// The number the decimal digits `d` spell.
pub open spec fn digits_value(d: Seq<char>) -> nat
    decreases d.len(),
{
    if d.len() == 0 {
        0
    } else {
        digits_value(d.drop_last()) * 10 + ((d.last() as u32) - ('0' as u32)) as nat
    }
}

/// `s` without one leading `+`.
pub open spec fn unsigned_digits(s: Seq<char>) -> Seq<char> {
    if s.len() > 0 && s[0] == '+' {
        s.drop_first()
    } else {
        s
    }
}

pub open spec fn all_digits(d: Seq<char>) -> bool {
    forall|i: int| 0 <= i < d.len() ==> is_digit(#[trigger] d[i])
}

/// `s` as a port number, as `u16::from_str` reads it: an optional `+`, then
/// one or more ASCII digits, with a value of at most 65535.
pub open spec fn parse_u16_spec(s: Seq<char>) -> Option<u16> {
    let d = unsigned_digits(s);
    if d.len() == 0 || !all_digits(d) {
        None
    } else if digits_value(d) <= 65535 {
        Some(digits_value(d) as u16)
    } else {
        None
    }
}

proof fn lemma_digits_grow(d: Seq<char>, n: int)
    requires
        0 <= n <= d.len(),
        forall|i: int| 0 <= i < d.len() ==> is_digit(#[trigger] d[i]),
    ensures
        digits_value(d.subrange(0, n)) <= digits_value(d),
    decreases d.len() - n,
{
    if n < d.len() {
        lemma_digits_grow(d, n + 1);
        let next = d.subrange(0, n + 1);
        assert(next.drop_last() =~= d.subrange(0, n));
    } else {
        assert(d.subrange(0, n) =~= d);
    }
}

pub fn parse_u16(s: &[char]) -> (value: Option<u16>)
    ensures
        value == parse_u16_spec(s@),
{
    let start: usize = if s.len() > 0 && s[0] == '+' { 1 } else { 0 };
    let ghost d = unsigned_digits(s@);
    assert(d =~= s@.subrange(start as int, s@.len() as int));
    if start == s.len() {
        return None;
    }
    let mut value: u32 = 0;
    let mut too_big = false;
    let mut i: usize = start;
    while i < s.len()
        invariant
            start <= i <= s.len(),
            d == unsigned_digits(s@),
            d == s@.subrange(start as int, s@.len() as int),
            forall|k: int| 0 <= k < i - start ==> is_digit(#[trigger] d[k]),
            !too_big ==> value == digits_value(d.subrange(0, i - start)) && value <= 65535,
            too_big ==> digits_value(d.subrange(0, i - start)) > 65535,
        decreases s.len() - i,
    {
        let c = s[i];
        assert(d[i - start] == c);
        if !('0' <= c && c <= '9') {
            assert(!is_digit(d[i - start]));
            return None;
        }
        let ghost prefix = d.subrange(0, i - start);
        let ghost next = d.subrange(0, i - start + 1);
        assert(next.drop_last() =~= prefix);
        if !too_big {
            value = value * 10 + ((c as u32) - ('0' as u32));
            if value > 65535 {
                too_big = true;
            }
        } else {
            assert(digits_value(next) >= digits_value(prefix)) by (nonlinear_arith)
                requires
                    digits_value(next) == digits_value(prefix) * 10 + ((c as u32) - ('0' as u32)) as nat,
            ;
        }
        i = i + 1;
    }
    assert(d.subrange(0, d.len() as int) =~= d);
    if too_big {
        None
    } else {
        Some(value as u16)
    }
}

/// `s` as `u64::from_str` reads it: an optional `+`, then one or more
/// ASCII digits, with a value that fits 64 bits.
pub open spec fn parse_u64_spec(s: Seq<char>) -> Option<u64> {
    let d = unsigned_digits(s);
    if d.len() == 0 || !all_digits(d) {
        None
    } else if digits_value(d) <= u64::MAX {
        Some(digits_value(d) as u64)
    } else {
        None
    }
}

pub fn parse_u64(s: &[char]) -> (value: Option<u64>)
    ensures
        value == parse_u64_spec(s@),
{
    let start: usize = if s.len() > 0 && s[0] == '+' { 1 } else { 0 };
    let ghost d = unsigned_digits(s@);
    assert(d =~= s@.subrange(start as int, s@.len() as int));
    if start == s.len() {
        return None;
    }
    let mut value: u128 = 0;
    let mut too_big = false;
    let mut i: usize = start;
    while i < s.len()
        invariant
            start <= i <= s.len(),
            d == unsigned_digits(s@),
            d == s@.subrange(start as int, s@.len() as int),
            forall|k: int| 0 <= k < i - start ==> is_digit(#[trigger] d[k]),
            !too_big ==> value == digits_value(d.subrange(0, i - start)) && value <= u64::MAX,
            too_big ==> digits_value(d.subrange(0, i - start)) > u64::MAX,
        decreases s.len() - i,
    {
        let c = s[i];
        assert(d[i - start] == c);
        if !('0' <= c && c <= '9') {
            assert(!is_digit(d[i - start]));
            return None;
        }
        let ghost prefix = d.subrange(0, i - start);
        let ghost next = d.subrange(0, i - start + 1);
        assert(next.drop_last() =~= prefix);
        if !too_big {
            value = value * 10 + ((c as u32) - ('0' as u32)) as u128;
            if value > 0xffff_ffff_ffff_ffff {
                too_big = true;
            }
        } else {
            assert(digits_value(next) >= digits_value(prefix)) by (nonlinear_arith)
                requires
                    digits_value(next) == digits_value(prefix) * 10 + ((c as u32) - ('0' as u32)) as nat,
            ;
        }
        i = i + 1;
    }
    assert(d.subrange(0, d.len() as int) =~= d);
    if too_big {
        None
    } else {
        Some(value as u64)
    }
}

/// `c` with ASCII upper case letters mapped to lower case.
pub open spec fn ascii_lower(c: char) -> char {
    if 'A' <= c <= 'Z' {
        ((c as u32) + 32) as char
    } else {
        c
    }
}

pub fn lower_char(c: char) -> (l: char)
    ensures
        l == ascii_lower(c),
{
    if 'A' <= c && c <= 'Z' {
        ((c as u8) + 32) as char
    } else {
        c
    }
}

/// `s` with ASCII upper case letters in lower case, as `str::to_ascii_lowercase`.
pub fn lower_ascii(s: &[char]) -> (l: Vec<char>)
    ensures
        l@ == s@.map_values(|c: char| ascii_lower(c)),
{
    let mut l: Vec<char> = Vec::new();
    let mut i: usize = 0;
    while i < s.len()
        invariant
            i <= s.len(),
            l@ == s@.subrange(0, i as int).map_values(|c: char| ascii_lower(c)),
        decreases s.len() - i,
    {
        l.push(lower_char(s[i]));
        assert(s@.subrange(0, i + 1).map_values(|c: char| ascii_lower(c)) =~= s@.subrange(0, i as int).map_values(|c: char| ascii_lower(c)).push(ascii_lower(s@[i as int])));
        i = i + 1;
    }
    assert(s@.subrange(0, s.len() as int) =~= s@);
    l
}

} // verus!
