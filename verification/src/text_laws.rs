//! Laws of reading text.

use vstd::prelude::*;

use crate::text;

verus! {

/// Whether `s` holds `c` nowhere.
pub open spec fn lacks(s: Seq<char>, c: char) -> bool {
    forall|i: int| 0 <= i < s.len() ==> s[i] != c
}

/// Whether `c` has Unicode's white space property.
pub open spec fn is_blank(c: char) -> bool {
    let n = c as u32;
    n == 9 || n == 10 || n == 11 || n == 12 || n == 13 || n == 32 || n == 133 || n == 160 || n
        == 5760 || n == 8192 || n == 8193 || n == 8194 || n == 8195 || n == 8196 || n == 8197 || n
        == 8198 || n == 8199 || n == 8200 || n == 8201 || n == 8202 || n == 8232 || n == 8233 || n
        == 8239 || n == 8287 || n == 12288
}

/// Whether `s` could be a word: it is not empty, and no white space stands in it.
pub open spec fn is_word(s: Seq<char>) -> bool {
    s.len() > 0 && forall|i: int| 0 <= i < s.len() ==> !is_blank(#[trigger] s[i])
}

proof fn lemma_word_len_is(w: Seq<char>, rest: Seq<char>)
    requires
        forall|i: int| 0 <= i < w.len() ==> !is_blank(#[trigger] w[i]),
        rest.len() > 0 ==> is_blank(rest[0]),
    ensures
        text::word_len(w + rest) == w.len(),
    decreases w.len(),
{
    let s = w + rest;
    if w.len() > 0 {
        assert(!is_blank(w[0]));
        assert(s[0] == w[0]);
        assert(s.skip(1) =~= w.skip(1) + rest);
        assert forall|i: int| 0 <= i < w.skip(1).len() implies !is_blank(#[trigger] w.skip(1)[i]) by {
            assert(!is_blank(w[i + 1]));
        }
        lemma_word_len_is(w.skip(1), rest);
    } else {
        assert(s =~= rest);
    }
}

/// White space, and nothing else, parts the words of a text: a word, a character of white space and
/// a rest have the word and the words of the rest; white space in front adds no word; a word alone
/// has itself; nothing has none.
pub proof fn white_space_parts_words(w: Seq<char>, c: char, rest: Seq<char>)
    requires
        is_word(w),
        is_blank(c),
    ensures
        text::words(w + seq![c] + rest) == seq![w] + text::words(rest),
        text::words(seq![c] + rest) == text::words(rest),
        text::words(w) == seq![w],
        text::words(Seq::empty()) == Seq::<Seq<char>>::empty(),
{
    let s = w + seq![c] + rest;
    let none: Seq<char> = Seq::empty();
    assert(!is_blank(w[0]));
    assert(s =~= w + (seq![c] + rest));
    assert(s[0] == w[0]);
    lemma_word_len_is(w, seq![c] + rest);
    assert(text::trimmed_start(s) == s);
    assert(s.take(w.len() as int) =~= w);
    let t = seq![c] + rest;
    assert(s.skip(w.len() as int) =~= t);
    assert(t.skip(1) =~= rest);
    assert(text::trimmed_start(t) == text::trimmed_start(rest));
    text::lemma_trimmed_start_len(rest);
    assert(text::words(t) == text::words(rest)) by {
        let u = text::trimmed_start(rest);
        text::lemma_word_len(u);
    }
    assert(text::words(s) == seq![w] + text::words(t));
    lemma_word_len_is(w, none);
    assert(w + none =~= w);
    assert(w.take(w.len() as int) =~= w);
    assert(w.skip(w.len() as int) =~= none);
    assert(text::trimmed_start(w) == w);
    assert(text::words(none) =~= Seq::<Seq<char>>::empty());
    assert(text::words(w) =~= seq![w]);
}

proof fn lemma_first_at_is(a: Seq<char>, c: char, rest: Seq<char>)
    requires
        lacks(a, c),
    ensures
        text::first_at(a + seq![c] + rest, c) == a.len(),
        text::first_at(a, c) == a.len(),
    decreases a.len(),
{
    let s = a + seq![c] + rest;
    text::lemma_first_at(s, c);
    text::lemma_first_at(a, c);
    let n = text::first_at(s, c) as int;
    assert(s[a.len() as int] == c);
    if n < a.len() {
        assert(s[n] == a[n]);
    }
}

/// Line feeds, and nothing else, end lines. A carriage return before a line feed belongs to
/// neither line; other text stays as it is. Text behind the last line feed is a line unless it is
/// empty.
pub proof fn line_feeds_end_lines(line: Seq<char>, rest: Seq<char>)
    requires
        lacks(line, '\n'),
    ensures
        text::lines(line + seq!['\r', '\n'] + rest) == seq![line] + text::lines(rest),
        line.len() == 0 || line.last() != '\r' ==> text::lines(line + seq!['\n'] + rest) == seq![
            line,
        ] + text::lines(rest),
        line.len() > 0 ==> text::lines(line) == seq![line],
        text::lines(Seq::empty()) == Seq::<Seq<char>>::empty(),
{
    let s = line + seq!['\n'] + rest;
    lemma_first_at_is(line, '\n', rest);
    assert(s.take(line.len() as int) =~= line);
    assert(s.skip(line.len() as int + 1) =~= rest);
    let long = line.push('\r');
    let t = long + seq!['\n'] + rest;
    assert(line + seq!['\r', '\n'] + rest =~= t);
    assert(lacks(long, '\n'));
    lemma_first_at_is(long, '\n', rest);
    assert(t.take(long.len() as int) =~= long);
    assert(t.skip(long.len() as int + 1) =~= rest);
    assert(long.drop_last() =~= line);
}

/// Splitting at a character parts a text at each of its places, and only there.
pub proof fn each_separator_parts(a: Seq<char>, c: char, rest: Seq<char>)
    requires
        lacks(a, c),
    ensures
        text::pieces(a + seq![c] + rest, c) == seq![a] + text::pieces(rest, c),
        text::pieces(a, c) == seq![a],
{
    let s = a + seq![c] + rest;
    lemma_first_at_is(a, c, rest);
    assert(s.take(a.len() as int) =~= a);
    assert(s.skip(a.len() as int + 1) =~= rest);
}

/// A part stands in a text if the text is something, the part, and something more; a text starts
/// with what it continues.
pub proof fn parts_stand_where_they_were_put(a: Seq<char>, p: Seq<char>, b: Seq<char>)
    ensures
        text::has_part(a + p + b, p),
        text::has_prefix(p + b, p),
{
    let s = a + p + b;
    assert(s.subrange(a.len() as int, a.len() + p.len() as int) =~= p);
    assert(text::occurs_at(s, p, a.len() as int));
    assert((p + b).subrange(0, p.len() as int) =~= p);
}

/// A text that holds a part is something, the part, and something more; a text that starts with a
/// part is the part and something more.
pub proof fn parts_are_put_together(s: Seq<char>, p: Seq<char>)
    ensures
        text::has_part(s, p) ==> exists|a: Seq<char>, b: Seq<char>| s == #[trigger] (a + p + b),
        text::has_prefix(s, p) ==> exists|b: Seq<char>| s == #[trigger] (p + b),
{
    if text::has_part(s, p) {
        let i = choose|i: int| text::occurs_at(s, p, i);
        let a = s.take(i);
        let b = s.skip(i + p.len());
        assert(s.subrange(i, i + p.len()) == p);
        assert(s =~= a + p + b);
    }
    if text::has_prefix(s, p) {
        let b = s.skip(p.len() as int);
        assert(s.subrange(0, p.len() as int) == p);
        assert(s =~= p + b);
    }
}

/// Trimming takes away the white space at both ends and nothing else.
pub proof fn trimming_takes_the_ends(a: Seq<char>, s: Seq<char>, b: Seq<char>)
    requires
        forall|i: int| 0 <= i < a.len() ==> is_blank(#[trigger] a[i]),
        forall|i: int| 0 <= i < b.len() ==> is_blank(#[trigger] b[i]),
        s.len() > 0 ==> !is_blank(s[0]) && !is_blank(s.last()),
    ensures
        text::trimmed(a + s + b) == s,
    decreases a.len() + b.len(),
{
    let t = a + s + b;
    if a.len() > 0 {
        assert(is_blank(a[0]) && t[0] == a[0]);
        assert forall|i: int| 0 <= i < a.skip(1).len() implies is_blank(#[trigger] a.skip(1)[i]) by {
            assert(is_blank(a[i + 1]));
        }
        assert(t.skip(1) =~= a.skip(1) + s + b);
        trimming_takes_the_ends(a.skip(1), s, b);
    } else if s.len() > 0 {
        assert(t =~= s + b);
        assert(t[0] == s[0]);
        assert(text::trimmed_start(t) == t);
        lemma_trimmed_end(s, b);
    } else if b.len() > 0 {
        assert(is_blank(b[0]) && t[0] == b[0]);
        assert forall|i: int| 0 <= i < b.skip(1).len() implies is_blank(#[trigger] b.skip(1)[i]) by {
            assert(is_blank(b[i + 1]));
        }
        assert(t.skip(1) =~= a + s + b.skip(1));
        trimming_takes_the_ends(a, s, b.skip(1));
    } else {
        assert(t =~= s);
    }
}

proof fn lemma_trimmed_end(s: Seq<char>, b: Seq<char>)
    requires
        forall|i: int| 0 <= i < b.len() ==> is_blank(#[trigger] b[i]),
        s.len() > 0 ==> !is_blank(s.last()),
    ensures
        text::trimmed_end(s + b) == s,
    decreases b.len(),
{
    if b.len() > 0 {
        assert(is_blank(b[b.len() - 1]));
        assert((s + b).drop_last() =~= s + b.drop_last());
        assert forall|i: int| 0 <= i < b.drop_last().len() implies is_blank(
            #[trigger] b.drop_last()[i],
        ) by {
            assert(is_blank(b[i]));
        }
        lemma_trimmed_end(s, b.drop_last());
    } else {
        assert(s + b =~= s);
    }
}

/// A number is written digit by digit in base ten, and one plus sign in front changes nothing. What
/// is above the bound, is empty or holds anything else writes none.
pub proof fn numbers_grow_digit_by_digit(s: Seq<char>, c: char, max: nat)
    ensures
        '0' <= c <= '9' ==> text::number_up_to(seq![c], max) == if c as int - 48 <= max {
            Some((c as int - 48) as nat)
        } else {
            None
        },
        text::number_up_to(s, max) matches Some(n) ==> n <= max && if '0' <= c <= '9' && 10 * n + (
        c as int - 48) <= max {
            text::number_up_to(s.push(c), max) == Some((10 * n + (c as int - 48)) as nat)
        } else {
            text::number_up_to(s.push(c), max) is None
        },
        text::number_up_to(Seq::empty(), max) is None,
        text::number_up_to(seq!['+'], max) is None,
        s.len() > 0 && s[0] != '+' ==> text::number_up_to(seq!['+'] + s, max)
            == text::number_up_to(s, max),
        forall|i: int|
            0 <= i < s.len() && !('0' <= #[trigger] s[i] <= '9') && (s[i] != '+' || i > 0)
                ==> text::number_up_to(s, max) is None,
{
    let one = seq![c];
    if '0' <= c <= '9' {
        assert(text::number_body(one) == one);
        assert(one.drop_last() =~= Seq::empty());
        assert(text::digits_value(Seq::empty()) == 0);
        assert(text::digits_value(one) == (c as int - 48) as nat);
        assert(text::all_digits(one));
    }
    let body = text::number_body(s);
    if text::number_up_to(s, max) is Some {
        let next = s.push(c);
        assert(text::number_body(next) =~= body.push(c));
        assert(body.push(c).drop_last() =~= body);
        if '0' <= c <= '9' {
            assert forall|i: int| 0 <= i < body.push(c).len() implies text::is_digit(
                #[trigger] body.push(c)[i],
            ) by {
                if i < body.len() {
                    assert(text::is_digit(body[i]));
                }
            }
        } else {
            assert(!text::is_digit(body.push(c)[body.len() as int]));
        }
    }
    assert(seq!['+'].skip(1) =~= Seq::empty());
    assert((seq!['+'] + s).skip(1) =~= s);
    assert forall|i: int|
        0 <= i < s.len() && !('0' <= #[trigger] s[i] <= '9') && (s[i] != '+' || i
            > 0) implies text::number_up_to(s, max) is None by {
        if s[0] == '+' {
            assert(body[i - 1] == s[i]);
            assert(!text::is_digit(body[i - 1]));
        } else {
            assert(!text::is_digit(body[i]));
        }
    }
}

/// Joined parts stand in their order, with the separator between each two of them and nowhere else.
pub proof fn separators_stand_between_parts(
    a: Seq<Seq<char>>,
    b: Seq<Seq<char>>,
    part: Seq<char>,
    sep: Seq<char>,
)
    requires
        a.len() > 0,
        b.len() > 0,
    ensures
        text::joined(a + b, sep) == text::joined(a, sep) + sep + text::joined(b, sep),
        text::joined(seq![part], sep) == part,
        text::joined(Seq::empty(), sep) == Seq::<char>::empty(),
    decreases b.len(),
{
    let all = a + b;
    if b.len() == 1 {
        assert(all.drop_last() =~= a);
        assert(all.last() == b[0]);
    } else {
        assert(all.drop_last() =~= a + b.drop_last());
        assert(all.last() == b.last());
        separators_stand_between_parts(a, b.drop_last(), part, sep);
        assert(text::joined(all, sep) =~= text::joined(a, sep) + sep + text::joined(b, sep));
    }
}

/// Words that are joined by a space are the words of the text that comes of it.
pub proof fn joined_words_are_read_back(ws: Seq<Seq<char>>)
    requires
        forall|i: int| 0 <= i < ws.len() ==> is_word(#[trigger] ws[i]),
    ensures
        text::words(text::joined(ws, seq![' '])) == ws,
    decreases ws.len(),
{
    let sep = seq![' '];
    let none: Seq<char> = Seq::empty();
    if ws.len() == 0 {
        white_space_parts_words(seq!['a'], ' ', none);
        assert(ws =~= Seq::<Seq<char>>::empty());
    } else if ws.len() == 1 {
        assert(is_word(ws[0]));
        white_space_parts_words(ws[0], ' ', none);
        assert(ws =~= seq![ws[0]]);
    } else {
        let rest = ws.skip(1);
        assert forall|i: int| 0 <= i < rest.len() implies is_word(#[trigger] rest[i]) by {
            assert(is_word(ws[i + 1]));
        }
        joined_words_are_read_back(rest);
        assert(ws =~= seq![ws[0]] + rest);
        separators_stand_between_parts(seq![ws[0]], rest, ws[0], sep);
        assert(is_word(ws[0]));
        white_space_parts_words(ws[0], ' ', text::joined(rest, sep));
    }
}

/// A number is a word of digits in base ten, without leading zeros.
pub proof fn numbers_are_words(n: nat)
    ensures
        is_word(text::decimal(n)),
        forall|i: int| 0 <= i < text::decimal(n).len() ==> '0' <= #[trigger] text::decimal(n)[i] <= '9',
        n > 0 ==> text::decimal(n)[0] != '0',
        n < 10 ==> text::decimal(n) == seq![(48 + n) as char],
        n >= 10 ==> text::decimal(n) == text::decimal(n / 10) + seq![(48 + n % 10) as char],
    decreases n,
{
    if n >= 10 {
        numbers_are_words(n / 10);
        assert(text::decimal(n) =~= text::decimal(n / 10) + seq![(48 + n % 10) as char]);
        let d = text::decimal(n);
        assert forall|i: int| 0 <= i < d.len() implies '0' <= #[trigger] d[i] <= '9' by {
            if i < d.len() - 1 {
                assert(d[i] == text::decimal(n / 10)[i]);
            }
        }
    }
}

} // verus!
