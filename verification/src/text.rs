//! Text primitives: every function is stated over sequences of characters.

use vstd::prelude::*;

verus! {

/// Trusted: `String::push` appends the given character to the end of the string.
pub assume_specification[ String::push ](s: &mut String, c: char)
    ensures
        final(s)@ == old(s)@.push(c),
;

/// The texts that a list of strings holds.
pub open spec fn texts(v: Seq<String>) -> Seq<Seq<char>> {
    v.map_values(|s: String| s@)
}

/// The text of an optional string.
pub open spec fn opt_text(o: Option<String>) -> Option<Seq<char>> {
    match o {
        Some(s) => Some(s@),
        None => None,
    }
}

/// The text of an optional string slice.
pub open spec fn opt_str(o: Option<&str>) -> Option<Seq<char>> {
    match o {
        Some(s) => Some(s@),
        None => None,
    }
}

// ---------------------------------------------------------------------------
// Conversions between strings and character vectors
// ---------------------------------------------------------------------------

/// The characters of `s`, in order.
pub fn chars_of(s: &str) -> (r: Vec<char>)
    ensures
        r@ == s@,
{
    let mut out: Vec<char> = Vec::new();
    for c in it: s.chars()
        invariant
            out@ == s@.take(it.index() as int),
            it.seq() == s@,
    {
        out.push(c);
    }
    out
}

/// The string made of the characters of `cs` from `from` up to, not including, `to`.
pub fn slice_text(cs: &Vec<char>, from: usize, to: usize) -> (r: String)
    requires
        from <= to <= cs.len(),
    ensures
        r@ == cs@.subrange(from as int, to as int),
{
    let mut out = String::new();
    let mut i: usize = from;
    while i < to
        invariant
            from <= i <= to <= cs.len(),
            out@ == cs@.subrange(from as int, i as int),
        decreases to - i,
    {
        out.push(cs[i]);
        i += 1;
        assert(cs@.subrange(from as int, i as int) == cs@.subrange(from as int, i - 1).push(cs@[i - 1]));
    }
    out
}

/// An owned copy of `s`.
pub fn owned(s: &str) -> (r: String)
    ensures
        r@ == s@,
{
    s.to_owned()
}

/// Whether two texts are the same.
pub fn same(a: &str, b: &str) -> (r: bool)
    ensures
        r == (a@ == b@),
{
    let x = chars_of(a);
    let y = chars_of(b);
    if x.len() != y.len() {
        return false;
    }
    let mut i: usize = 0;
    while i < x.len()
        invariant
            i <= x.len(),
            x.len() == y.len(),
            x@ == a@,
            y@ == b@,
            forall|j: int| 0 <= j < i ==> x@[j] == y@[j],
        decreases x.len() - i,
    {
        if x[i] != y[i] {
            return false;
        }
        i += 1;
    }
    assert(a@ =~= b@);
    true
}

/// Whether an optional text is present and equal to `b`.
pub fn is_text(a: &Option<String>, b: &str) -> (r: bool)
    ensures
        r == (opt_text(*a) == Some(b@)),
{
    match a {
        Some(s) => same(s.as_str(), b),
        None => false,
    }
}

/// `a` followed by `b`.
pub fn concat(a: &str, b: &str) -> (r: String)
    ensures
        r@ == a@ + b@,
{
    let mut out = a.to_owned();
    out.append(b);
    out
}

/// A copy of an optional string.
pub fn copy_opt(o: &Option<String>) -> (r: Option<String>)
    ensures
        r == *o,
        opt_text(r) == opt_text(*o),
{
    match o {
        Some(s) => Some(s.clone()),
        None => None,
    }
}

// ---------------------------------------------------------------------------
// White space
// ---------------------------------------------------------------------------

/// The characters with Unicode's `White_Space` property.
pub open spec fn is_space(c: char) -> bool {
    ||| 0x09 <= c as u32 <= 0x0d
    ||| c as u32 == 0x20
    ||| c as u32 == 0x85
    ||| c as u32 == 0xa0
    ||| c as u32 == 0x1680
    ||| 0x2000 <= c as u32 <= 0x200a
    ||| c as u32 == 0x2028
    ||| c as u32 == 0x2029
    ||| c as u32 == 0x202f
    ||| c as u32 == 0x205f
    ||| c as u32 == 0x3000
}

/// Whether `c` is white space.
pub fn space(c: char) -> (r: bool)
    ensures
        r == is_space(c),
{
    let u: u32 = c as u32;
    (0x09 <= u && u <= 0x0d) || u == 0x20 || u == 0x85 || u == 0xa0 || u == 0x1680 || (0x2000 <= u
        && u <= 0x200a) || u == 0x2028 || u == 0x2029 || u == 0x202f || u == 0x205f || u == 0x3000
}

/// `s` without its leading white space.
pub open spec fn trimmed_start(s: Seq<char>) -> Seq<char>
    decreases s.len(),
{
    if s.len() > 0 && is_space(s[0]) {
        trimmed_start(s.skip(1))
    } else {
        s
    }
}

/// `s` without its trailing white space.
pub open spec fn trimmed_end(s: Seq<char>) -> Seq<char>
    decreases s.len(),
{
    if s.len() > 0 && is_space(s.last()) {
        trimmed_end(s.drop_last())
    } else {
        s
    }
}

/// `s` without white space at either end.
pub open spec fn trimmed(s: Seq<char>) -> Seq<char> {
    trimmed_end(trimmed_start(s))
}

/// The first position at or after `from` that does not hold white space.
fn skip_spaces(cs: &Vec<char>, from: usize) -> (r: usize)
    requires
        from <= cs.len(),
    ensures
        from <= r <= cs.len(),
        trimmed_start(cs@.skip(from as int)) == cs@.skip(r as int),
        r < cs.len() ==> !is_space(cs@[r as int]),
{
    let mut i: usize = from;
    while i < cs.len() && space(cs[i])
        invariant
            from <= i <= cs.len(),
            trimmed_start(cs@.skip(from as int)) == trimmed_start(cs@.skip(i as int)),
        decreases cs.len() - i,
    {
        assert(cs@.skip(i as int).skip(1) == cs@.skip(i + 1));
        i += 1;
    }
    i
}

/// Removes white space at the start of `s`.
pub fn trim_start(s: &str) -> (r: String)
    ensures
        r@ == trimmed_start(s@),
{
    let cs = chars_of(s);
    let from = skip_spaces(&cs, 0);
    assert(cs@.skip(0) == cs@);
    assert(cs@.subrange(from as int, cs@.len() as int) == cs@.skip(from as int));
    slice_text(&cs, from, cs.len())
}

/// Removes white space at both ends of `s`.
pub fn trim(s: &str) -> (r: String)
    ensures
        r@ == trimmed(s@),
{
    let cs = chars_of(s);
    let from = skip_spaces(&cs, 0);
    assert(cs@.skip(0) == cs@);
    let mut to: usize = cs.len();
    assert(cs@.subrange(from as int, to as int) == cs@.skip(from as int));
    while to > from && space(cs[to - 1])
        invariant
            from <= to <= cs.len(),
            trimmed(s@) == trimmed_end(cs@.subrange(from as int, to as int)),
        decreases to,
    {
        assert(cs@.subrange(from as int, to as int).drop_last() == cs@.subrange(
            from as int,
            to - 1,
        ));
        to -= 1;
    }
    slice_text(&cs, from, to)
}

/// How many characters of `s` come before its first white space.
pub open spec fn word_len(s: Seq<char>) -> nat
    decreases s.len(),
{
    if s.len() > 0 && !is_space(s[0]) {
        1 + word_len(s.skip(1))
    } else {
        0
    }
}

/// A word is not longer than the text that it starts.
pub proof fn lemma_word_len(s: Seq<char>)
    ensures
        word_len(s) <= s.len(),
    decreases s.len(),
{
    if s.len() > 0 && !is_space(s[0]) {
        lemma_word_len(s.skip(1));
    }
}

/// Trimming does not lengthen.
pub proof fn lemma_trimmed_start_len(s: Seq<char>)
    ensures
        trimmed_start(s).len() <= s.len(),
        trimmed_start(s).len() > 0 ==> !is_space(trimmed_start(s)[0]),
    decreases s.len(),
{
    if s.len() > 0 && is_space(s[0]) {
        lemma_trimmed_start_len(s.skip(1));
    }
}

/// The words of `s`: its longest runs of characters that are not white space, in order.
pub open spec fn words(s: Seq<char>) -> Seq<Seq<char>>
    decreases s.len(),
{
    let t = trimmed_start(s);
    if t.len() == 0 || t.len() > s.len() || word_len(t) == 0 || word_len(t) > t.len() {
        Seq::empty()
    } else {
        seq![t.take(word_len(t) as int)] + words(t.skip(word_len(t) as int))
    }
}

/// Splits `s` into its words.
pub fn split_words(s: &str) -> (r: Vec<String>)
    ensures
        texts(r@) == words(s@),
{
    let cs = chars_of(s);
    let mut out: Vec<String> = Vec::new();
    let mut i: usize = 0;
    assert(cs@.skip(0) == cs@);
    assert(texts(out@) + words(cs@.skip(0)) =~= words(s@));
    loop
        invariant
            i <= cs.len(),
            cs@ == s@,
            texts(out@) + words(cs@.skip(i as int)) == words(s@),
        ensures
            texts(out@) == words(s@),
        decreases cs.len() - i,
    {
        let ghost here = cs@.skip(i as int);
        let from = skip_spaces(&cs, i);
        let ghost t = cs@.skip(from as int);
        proof {
            lemma_trimmed_start_len(here);
            lemma_word_len(t);
        }
        if from == cs.len() {
            assert(words(here) =~= Seq::empty());
            assert(texts(out@) + words(here) =~= texts(out@));
            break;
        }
        let mut to: usize = from;
        while to < cs.len() && !space(cs[to])
            invariant
                from <= to <= cs.len(),
                t == cs@.skip(from as int),
                word_len(t) == (to - from) + word_len(cs@.skip(to as int)),
            decreases cs.len() - to,
        {
            assert(cs@.skip(to as int).skip(1) == cs@.skip(to + 1));
            to += 1;
        }
        let ghost before = out@;
        let word = slice_text(&cs, from, to);
        proof {
            assert(word_len(t) == to - from);
            assert(!is_space(t[0]));
            assert(t.take(to - from) == cs@.subrange(from as int, to as int));
            assert(t.skip(to - from) == cs@.skip(to as int));
            assert(words(here) == seq![word@] + words(cs@.skip(to as int)));
        }
        out.push(word);
        proof {
            assert(texts(out@) =~= texts(before).push(word@));
            assert(texts(before) + (seq![word@] + words(cs@.skip(to as int))) =~= texts(out@)
                + words(cs@.skip(to as int)));
        }
        i = to;
    }
    out
}

// ---------------------------------------------------------------------------
// Splitting at characters
// ---------------------------------------------------------------------------

/// The position of the first `c` in `s`, or the length of `s` when there is none.
pub open spec fn first_at(s: Seq<char>, c: char) -> nat
    decreases s.len(),
{
    if s.len() == 0 || s[0] == c {
        0
    } else {
        1 + first_at(s.skip(1), c)
    }
}

/// What [`first_at`] means, element by element.
pub proof fn lemma_first_at(s: Seq<char>, c: char)
    ensures
        first_at(s, c) <= s.len(),
        forall|i: int| 0 <= i < first_at(s, c) ==> s[i] != c,
        first_at(s, c) < s.len() ==> s[first_at(s, c) as int] == c,
    decreases s.len(),
{
    if s.len() > 0 && s[0] != c {
        lemma_first_at(s.skip(1), c);
        assert forall|i: int| 0 <= i < first_at(s, c) implies s[i] != c by {
            if i > 0 {
                assert(s.skip(1)[i - 1] == s[i]);
            }
        }
    }
}

/// The first position at or after `from` that holds `c`, or the end.
fn find_char(cs: &Vec<char>, from: usize, c: char) -> (r: usize)
    requires
        from <= cs.len(),
    ensures
        from <= r <= cs.len(),
        r == from + first_at(cs@.skip(from as int), c),
        r < cs.len() ==> cs@[r as int] == c,
{
    let mut i: usize = from;
    while i < cs.len() && cs[i] != c
        invariant
            from <= i <= cs.len(),
            first_at(cs@.skip(from as int), c) == (i - from) + first_at(cs@.skip(i as int), c),
        decreases cs.len() - i,
    {
        assert(cs@.skip(i as int).skip(1) == cs@.skip(i + 1));
        i += 1;
    }
    i
}

/// The pieces of `s` between the occurrences of `c`: one more than there are occurrences.
pub open spec fn pieces(s: Seq<char>, c: char) -> Seq<Seq<char>>
    decreases s.len(),
{
    let n = first_at(s, c);
    if n >= s.len() {
        seq![s]
    } else {
        seq![s.take(n as int)] + pieces(s.skip(n as int + 1), c)
    }
}

/// Splits `s` at every `c`.
pub fn split_at_char(s: &str, c: char) -> (r: Vec<String>)
    ensures
        texts(r@) == pieces(s@, c),
        r.len() >= 1,
{
    let cs = chars_of(s);
    let mut out: Vec<String> = Vec::new();
    let mut i: usize = 0;
    assert(cs@.skip(0) == cs@);
    assert(texts(out@) + pieces(cs@.skip(0), c) =~= pieces(s@, c));
    loop
        invariant_except_break
            texts(out@) + pieces(cs@.skip(i as int), c) == pieces(s@, c),
        invariant
            i <= cs.len(),
            cs@ == s@,
        ensures
            texts(out@) == pieces(s@, c),
            out.len() >= 1,
        decreases cs.len() - i,
    {
        let ghost here = cs@.skip(i as int);
        let ghost before = out@;
        let n = find_char(&cs, i, c);
        let piece = slice_text(&cs, i, n);
        if n == cs.len() {
            assert(piece@ == here);
            out.push(piece);
            assert(texts(out@) =~= texts(before) + seq![here]);
            break;
        }
        proof {
            lemma_first_at(here, c);
            assert(here.take(n - i) == cs@.subrange(i as int, n as int));
            assert(here.skip(n - i + 1) == cs@.skip(n + 1));
        }
        out.push(piece);
        proof {
            assert(texts(out@) =~= texts(before).push(piece@));
            assert(texts(before) + (seq![piece@] + pieces(cs@.skip(n + 1), c)) =~= texts(out@)
                + pieces(cs@.skip(n + 1), c));
        }
        i = n + 1;
    }
    out
}

/// The text before and the text behind the first `c` in `s`.
pub fn split_once_char(s: &str, c: char) -> (r: Option<(String, String)>)
    ensures
        match r {
            Some(ab) => {
                &&& first_at(s@, c) < s@.len()
                &&& ab.0@ == s@.take(first_at(s@, c) as int)
                &&& ab.1@ == s@.skip(first_at(s@, c) as int + 1)
            },
            None => first_at(s@, c) == s@.len(),
        },
{
    let cs = chars_of(s);
    assert(cs@.skip(0) == cs@);
    let n = find_char(&cs, 0, c);
    if n == cs.len() {
        return None;
    }
    assert(cs@.subrange(0, n as int) == cs@.take(n as int));
    assert(cs@.subrange(n + 1, cs@.len() as int) == cs@.skip(n + 1));
    Some((slice_text(&cs, 0, n), slice_text(&cs, n + 1, cs.len())))
}

/// A line's text without the carriage return that may end it.
pub open spec fn without_cr(s: Seq<char>) -> Seq<char> {
    if s.len() > 0 && s.last() == '\r' {
        s.drop_last()
    } else {
        s
    }
}

/// The lines of `s`. A line ends with a line feed, which a carriage return may precede; neither is
/// part of it. Text behind the last line feed is a line unless it is empty.
pub open spec fn lines(s: Seq<char>) -> Seq<Seq<char>>
    decreases s.len(),
{
    let n = first_at(s, '\n');
    if s.len() == 0 {
        Seq::empty()
    } else if n >= s.len() {
        seq![s]
    } else {
        seq![without_cr(s.take(n as int))] + lines(s.skip(n as int + 1))
    }
}

/// Splits `s` into its lines.
pub fn split_lines(s: &str) -> (r: Vec<String>)
    ensures
        texts(r@) == lines(s@),
{
    let cs = chars_of(s);
    let mut out: Vec<String> = Vec::new();
    let mut i: usize = 0;
    assert(cs@.skip(0) == cs@);
    assert(texts(out@) + lines(cs@.skip(0)) =~= lines(s@));
    while i < cs.len()
        invariant
            i <= cs.len(),
            cs@ == s@,
            texts(out@) + lines(cs@.skip(i as int)) == lines(s@),
        decreases cs.len() - i,
    {
        let ghost here = cs@.skip(i as int);
        let ghost before = out@;
        let n = find_char(&cs, i, '\n');
        proof {
            lemma_first_at(here, '\n');
            assert(here.take(n - i) == cs@.subrange(i as int, n as int));
        }
        if n == cs.len() {
            let line = slice_text(&cs, i, n);
            assert(line@ == here);
            out.push(line);
            proof {
                assert(texts(out@) =~= texts(before).push(here));
                assert(lines(cs@.skip(n as int)) =~= Seq::empty());
                assert(texts(before) + seq![here] =~= texts(out@) + lines(cs@.skip(n as int)));
            }
            i = n;
        } else {
            let mut end: usize = n;
            if end > i && cs[end - 1] == '\r' {
                end -= 1;
            }
            let line = slice_text(&cs, i, end);
            proof {
                assert(line@ =~= without_cr(here.take(n - i)));
                assert(here.skip(n - i + 1) == cs@.skip(n + 1));
            }
            out.push(line);
            proof {
                assert(texts(out@) =~= texts(before).push(line@));
                assert(texts(before) + (seq![line@] + lines(cs@.skip(n + 1))) =~= texts(out@)
                    + lines(cs@.skip(n + 1)));
            }
            i = n + 1;
        }
    }
    proof {
        assert(lines(cs@.skip(i as int)) =~= Seq::empty());
        assert(texts(out@) + lines(cs@.skip(i as int)) =~= texts(out@));
    }
    out
}

// ---------------------------------------------------------------------------
// Substrings
// ---------------------------------------------------------------------------

/// Whether `p` stands in `s` at position `i`.
pub open spec fn occurs_at(s: Seq<char>, p: Seq<char>, i: int) -> bool {
    0 <= i && i + p.len() <= s.len() && s.subrange(i, i + p.len()) == p
}

/// Whether `p` stands anywhere in `s`.
pub open spec fn has_part(s: Seq<char>, p: Seq<char>) -> bool {
    exists|i: int| occurs_at(s, p, i)
}

/// Whether `s` starts with `p`.
pub open spec fn has_prefix(s: Seq<char>, p: Seq<char>) -> bool {
    occurs_at(s, p, 0)
}

/// Whether `i` is the first position of `p` in `s`.
pub open spec fn first_part_at(s: Seq<char>, p: Seq<char>, i: int) -> bool {
    occurs_at(s, p, i) && forall|j: int| 0 <= j < i ==> !occurs_at(s, p, j)
}

/// Whether `p` stands in `cs` at position `i`.
fn matches_at(cs: &Vec<char>, p: &Vec<char>, i: usize) -> (r: bool)
    ensures
        r == occurs_at(cs@, p@, i as int),
{
    if i > cs.len() || p.len() > cs.len() - i {
        return false;
    }
    let mut j: usize = 0;
    while j < p.len()
        invariant
            j <= p.len(),
            i + p.len() <= cs.len(),
            forall|k: int| 0 <= k < j ==> cs@[i + k] == p@[k],
        decreases p.len() - j,
    {
        if cs[i + j] != p[j] {
            assert(cs@.subrange(i as int, i + p@.len())[j as int] != p@[j as int]);
            return false;
        }
        j += 1;
    }
    assert(cs@.subrange(i as int, i + p@.len()) =~= p@);
    true
}

/// The first position of `p` in `cs`.
fn find_part(cs: &Vec<char>, p: &Vec<char>) -> (r: Option<usize>)
    ensures
        match r {
            Some(i) => first_part_at(cs@, p@, i as int),
            None => !has_part(cs@, p@),
        },
{
    let mut i: usize = 0;
    loop
        invariant
            i <= cs.len(),
            forall|j: int| 0 <= j < i ==> !occurs_at(cs@, p@, j),
        decreases cs.len() - i,
    {
        if matches_at(cs, p, i) {
            return Some(i);
        }
        if i == cs.len() {
            return None;
        }
        i += 1;
    }
}

/// Whether `p` stands anywhere in `s`.
pub fn contains(s: &str, p: &str) -> (r: bool)
    ensures
        r == has_part(s@, p@),
{
    let cs = chars_of(s);
    let ps = chars_of(p);
    match find_part(&cs, &ps) {
        Some(i) => {
            assert(occurs_at(s@, p@, i as int));
            true
        },
        None => false,
    }
}

/// Whether `s` starts with `p`.
pub fn starts_with(s: &str, p: &str) -> (r: bool)
    ensures
        r == has_prefix(s@, p@),
{
    let cs = chars_of(s);
    let ps = chars_of(p);
    matches_at(&cs, &ps, 0)
}

/// The text before and the text behind the first `p` in `s`.
pub open spec fn parted(s: Seq<char>, p: Seq<char>) -> Option<(Seq<char>, Seq<char>)> {
    if exists|i: int| first_part_at(s, p, i) {
        let i = choose|i: int| first_part_at(s, p, i);
        Some((s.take(i), s.skip(i + p.len())))
    } else {
        None
    }
}

/// There is one first position of `p`.
pub proof fn lemma_parted(s: Seq<char>, p: Seq<char>, i: int)
    requires
        first_part_at(s, p, i),
    ensures
        parted(s, p) == Some((s.take(i), s.skip(i + p.len()))),
{
    let k = choose|k: int| first_part_at(s, p, k);
    assert(first_part_at(s, p, k));
    assert(k == i) by {
        if k < i {
            assert(!occurs_at(s, p, k));
        }
        if i < k {
            assert(!occurs_at(s, p, i));
        }
    }
}

/// The text before and the text behind the first `p` in `s`.
pub fn split_once(s: &str, p: &str) -> (r: Option<(String, String)>)
    ensures
        match r {
            Some(ab) => parted(s@, p@) == Some((ab.0@, ab.1@)),
            None => parted(s@, p@) is None,
        },
{
    let cs = chars_of(s);
    let ps = chars_of(p);
    match find_part(&cs, &ps) {
        Some(i) => {
            assert(occurs_at(cs@, ps@, i as int));
            assert(i + ps.len() <= cs.len());
            let a = slice_text(&cs, 0, i);
            let b = slice_text(&cs, i + ps.len(), cs.len());
            proof {
                lemma_parted(s@, p@, i as int);
                assert(a@ =~= s@.take(i as int) && b@ =~= s@.skip(i + p@.len()));
            }
            Some((a, b))
        },
        None => None,
    }
}

// ---------------------------------------------------------------------------
// Numbers
// ---------------------------------------------------------------------------

/// Whether `c` is one of the ten ASCII digits.
pub open spec fn is_digit(c: char) -> bool {
    '0' <= c <= '9'
}

/// Whether `s` holds nothing but digits.
pub open spec fn all_digits(s: Seq<char>) -> bool {
    forall|i: int| 0 <= i < s.len() ==> is_digit(#[trigger] s[i])
}

/// The number that the digits of `s` write in base ten.
pub open spec fn digits_value(s: Seq<char>) -> nat
    decreases s.len(),
{
    if s.len() == 0 {
        0
    } else {
        digits_value(s.drop_last()) * 10 + (s.last() as int - '0' as int) as nat
    }
}

/// The digits of a written number: one leading plus sign is allowed.
pub open spec fn number_body(s: Seq<char>) -> Seq<char> {
    if s.len() > 0 && s[0] == '+' {
        s.skip(1)
    } else {
        s
    }
}

/// The number that `s` writes, if it is a number and at most `max`.
pub open spec fn number_up_to(s: Seq<char>, max: nat) -> Option<nat> {
    let body = number_body(s);
    if body.len() > 0 && all_digits(body) && digits_value(body) <= max {
        Some(digits_value(body))
    } else {
        None
    }
}

/// A longer run of digits writes no smaller number.
pub proof fn lemma_digits_monotone(s: Seq<char>, k: int)
    requires
        0 <= k <= s.len(),
        all_digits(s),
    ensures
        digits_value(s.take(k)) <= digits_value(s),
    decreases s.len() - k,
{
    if k < s.len() {
        lemma_digits_monotone(s, k + 1);
        assert(s.take(k + 1).drop_last() == s.take(k));
        assert(is_digit(s[k]));
    } else {
        assert(s.take(k) == s);
    }
}

/// Reads an unsigned number of at most `max`.
pub fn parse_number(s: &str, max: u64) -> (r: Option<u64>)
    ensures
        match r {
            Some(v) => number_up_to(s@, max as nat) == Some(v as nat),
            None => number_up_to(s@, max as nat) is None,
        },
{
    let cs = chars_of(s);
    let from: usize = if cs.len() > 0 && cs[0] == '+' { 1 } else { 0 };
    let ghost body = number_body(s@);
    assert(body == cs@.skip(from as int)) by {
        assert(cs@.skip(0) == cs@);
    }
    if from == cs.len() {
        return None;
    }
    let mut v: u64 = 0;
    let mut i: usize = from;
    while i < cs.len()
        invariant
            from <= i <= cs.len(),
            body == cs@.skip(from as int),
            body == number_body(s@),
            v == digits_value(body.take(i - from)),
            v <= max,
            forall|j: int| 0 <= j < i - from ==> is_digit(#[trigger] body[j]),
        decreases cs.len() - i,
    {
        let c = cs[i];
        assert(body[i - from] == c);
        if !('0' <= c && c <= '9') {
            assert(!is_digit(body[i - from]));
            return None;
        }
        let d: u64 = (c as u64) - ('0' as u64);
        assert(body.take(i - from + 1).drop_last() == body.take(i - from));
        assert(digits_value(body.take(i - from + 1)) == v * 10 + d);
        if v > max / 10 || d > max || v * 10 > max - d {
            proof {
                if all_digits(body) {
                    lemma_digits_monotone(body, i - from + 1);
                }
                assert(v * 10 + d > max);
            }
            return None;
        }
        v = v * 10 + d;
        i += 1;
    }
    assert(body.take(i - from) == body);
    assert(all_digits(body));
    Some(v)
}

/// Reads a `u32`.
pub fn parse_u32(s: &str) -> (r: Option<u32>)
    ensures
        match r {
            Some(v) => number_up_to(s@, u32::MAX as nat) == Some(v as nat),
            None => number_up_to(s@, u32::MAX as nat) is None,
        },
{
    match parse_number(s, 0xffff_ffff) {
        Some(v) => Some(v as u32),
        None => None,
    }
}

/// Reads a `u64`.
pub fn parse_u64(s: &str) -> (r: Option<u64>)
    ensures
        match r {
            Some(v) => number_up_to(s@, u64::MAX as nat) == Some(v as nat),
            None => number_up_to(s@, u64::MAX as nat) is None,
        },
{
    parse_number(s, 0xffff_ffff_ffff_ffff)
}

/// Reads a `usize`.
pub fn parse_usize(s: &str) -> (r: Option<usize>)
    ensures
        match r {
            Some(v) => number_up_to(s@, usize::MAX as nat) == Some(v as nat),
            None => number_up_to(s@, usize::MAX as nat) is None,
        },
{
    match parse_number(s, usize::MAX as u64) {
        Some(v) => Some(v as usize),
        None => None,
    }
}

/// The digit that writes `d` in base ten.
pub open spec fn digit(d: nat) -> char
    recommends
        d < 10,
{
    ('0' as u32 + d) as char
}

/// How `n` is written in base ten, without leading zeros.
pub open spec fn decimal(n: nat) -> Seq<char>
    decreases n,
{
    if n < 10 {
        seq![digit(n)]
    } else {
        decimal(n / 10).push(digit(n % 10))
    }
}

/// Appends the decimal form of `n` to `out`.
fn push_decimal(out: &mut String, n: u64)
    ensures
        final(out)@ == old(out)@ + decimal(n as nat),
    decreases n,
{
    if n >= 10 {
        push_decimal(out, n / 10);
    }
    let d: u8 = (n % 10) as u8;
    out.push((48u8 + d) as char);
    assert(out@ =~= old(out)@ + decimal(n as nat));
}

/// Writes `n` in base ten.
pub fn to_decimal(n: u64) -> (r: String)
    ensures
        r@ == decimal(n as nat),
{
    let mut out = String::new();
    push_decimal(&mut out, n);
    assert(Seq::<char>::empty() + decimal(n as nat) =~= decimal(n as nat));
    out
}

/// What [`decimal`] writes, [`number_up_to`] reads back.
pub proof fn decimal_round_trips(n: nat, max: nat)
    requires
        n <= max,
    ensures
        number_up_to(decimal(n), max) == Some(n),
{
    lemma_decimal(n);
    assert(is_digit(decimal(n)[0]));
}

proof fn lemma_decimal(n: nat)
    ensures
        decimal(n).len() > 0,
        all_digits(decimal(n)),
        digits_value(decimal(n)) == n,
    decreases n,
{
    if n >= 10 {
        lemma_decimal(n / 10);
        assert(decimal(n).drop_last() == decimal(n / 10));
        assert forall|i: int| 0 <= i < decimal(n).len() implies is_digit(#[trigger] decimal(n)[i]) by {
            if i < decimal(n / 10).len() {
                assert(is_digit(decimal(n / 10)[i]));
            }
        }
    } else {
        reveal_with_fuel(digits_value, 2);
        assert(decimal(n).drop_last() =~= Seq::empty());
    }
}

/// The lower-case hexadecimal digit of `d`.
pub open spec fn hex_digit(d: nat) -> char
    recommends
        d < 16,
{
    if d < 10 {
        ('0' as u32 + d) as char
    } else {
        ('a' as u32 + (d - 10)) as char
    }
}

/// The last `k` hexadecimal digits of `n`, with leading zeros.
pub open spec fn hex(n: nat, k: nat) -> Seq<char>
    decreases k,
{
    if k == 0 {
        Seq::empty()
    } else {
        hex(n / 16, (k - 1) as nat).push(hex_digit(n % 16))
    }
}

fn push_hex(out: &mut String, n: u32, k: usize)
    ensures
        final(out)@ == old(out)@ + hex(n as nat, k as nat),
    decreases k,
{
    if k == 0 {
        assert(old(out)@ + hex(n as nat, 0) =~= old(out)@);
        return ;
    }
    push_hex(out, n / 16, k - 1);
    let d: u8 = (n % 16) as u8;
    if d < 10 {
        out.push((48u8 + d) as char);
    } else {
        out.push((87u8 + d) as char);
    }
    assert(out@ =~= old(out)@ + hex(n as nat, k as nat));
}

/// Writes `n` as eight hexadecimal digits.
pub fn to_hex8(n: u32) -> (r: String)
    ensures
        r@ == hex(n as nat, 8),
{
    let mut out = String::new();
    push_hex(&mut out, n, 8);
    assert(Seq::<char>::empty() + hex(n as nat, 8) =~= hex(n as nat, 8));
    out
}

// ---------------------------------------------------------------------------
// Joining
// ---------------------------------------------------------------------------

/// The texts of `parts`, in order, with `sep` between neighbours.
pub open spec fn joined(parts: Seq<Seq<char>>, sep: Seq<char>) -> Seq<char>
    decreases parts.len(),
{
    if parts.len() == 0 {
        Seq::empty()
    } else if parts.len() == 1 {
        parts[0]
    } else {
        joined(parts.drop_last(), sep) + sep + parts.last()
    }
}

/// Joins the parts from position `from` on.
pub fn join_from(parts: &Vec<String>, from: usize, sep: &str) -> (r: String)
    requires
        from <= parts.len(),
    ensures
        r@ == joined(texts(parts@).skip(from as int), sep@),
{
    let mut out = String::new();
    let mut i: usize = from;
    let ghost all = texts(parts@).skip(from as int);
    while i < parts.len()
        invariant
            from <= i <= parts.len(),
            all == texts(parts@).skip(from as int),
            out@ == joined(all.take(i - from), sep@),
        decreases parts.len() - i,
    {
        assert(all.take(i - from + 1).drop_last() == all.take(i - from));
        assert(all.take(i - from + 1).last() == parts@[i as int]@);
        if i > from {
            out.append(sep);
        }
        out.append(parts[i].as_str());
        assert(out@ =~= joined(all.take(i - from + 1), sep@));
        i += 1;
    }
    assert(all.take(i - from) == all);
    out
}

/// The decimal forms of `ns`.
pub open spec fn decimals(ns: Seq<u32>) -> Seq<Seq<char>> {
    ns.map_values(|n: u32| decimal(n as nat))
}

/// The decimal forms of `ns`, separated by a comma and a space.
pub fn number_list(ns: &Vec<u32>) -> (r: String)
    ensures
        r@ == joined(decimals(ns@), ", "@),
{
    let mut parts: Vec<String> = Vec::new();
    let mut i: usize = 0;
    while i < ns.len()
        invariant
            i <= ns.len(),
            texts(parts@) == decimals(ns@.take(i as int)),
        decreases ns.len() - i,
    {
        let ghost before = parts@;
        let part = to_decimal(ns[i] as u64);
        parts.push(part);
        proof {
            assert(texts(parts@) =~= texts(before).push(part@));
            assert(decimals(ns@.take(i + 1)) =~= decimals(ns@.take(i as int)).push(part@));
        }
        i += 1;
    }
    assert(ns@.take(i as int) == ns@);
    assert(texts(parts@).skip(0) == texts(parts@));
    join_from(&parts, 0, ", ")
}

} // verus!
