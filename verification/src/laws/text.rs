//! Laws of the text operations.
use crate::text;
use crate::text::IntError;
use crate::text_lemmas;
use crate::text_lemmas::lacks;
use vstd::prelude::*;

verus! {

/// White space is the blank, the ASCII controls from tab to carriage return, and the
/// further blanks and separators of Unicode; no other character is.
pub proof fn white_space_is_blanks_and_separators(c: char)
    ensures
        text::white(c) <==> {
            ||| c == ' '
            ||| c == '\t'
            ||| c == '\n'
            ||| c == '\u{b}'
            ||| c == '\u{c}'
            ||| c == '\r'
            ||| c == '\u{85}'
            ||| c == '\u{a0}'
            ||| c == '\u{1680}'
            ||| '\u{2000}' <= c <= '\u{200a}'
            ||| c == '\u{2028}'
            ||| c == '\u{2029}'
            ||| c == '\u{202f}'
            ||| c == '\u{205f}'
            ||| c == '\u{3000}'
        },
{
}

/// Trimming takes white space away at both ends, all of it, and nothing else.
pub proof fn trimming_takes_both_ends(before: Seq<char>, kept: Seq<char>, after: Seq<char>)
    requires
        forall|i: int| 0 <= i < before.len() ==> text::white(#[trigger] before[i]),
        forall|i: int| 0 <= i < after.len() ==> text::white(#[trigger] after[i]),
        kept.len() > 0 ==> !text::white(kept[0]) && !text::white(kept.last()),
    ensures
        text::trimmed(before + kept + after) == kept,
    decreases before.len() + after.len(),
{
    if after.len() > 0 {
        let s = before + kept + after.drop_last();
        assert(before + kept + after =~= s.push(after.last()));
        assert forall|i: int| 0 <= i < after.drop_last().len() implies text::white(
            #[trigger] after.drop_last()[i],
        ) by {
            assert(after.drop_last()[i] == after[i]);
        }
        assert(text::white(after[after.len() - 1]));
        text_lemmas::lemma_trimmed_before_white(s, after.last());
        trimming_takes_both_ends(before, kept, after.drop_last());
    } else if before.len() > 0 {
        let s = before + kept + after;
        let rest = before.drop_first();
        assert(text::white(before[0]));
        assert(s[0] == before[0]);
        assert(s.drop_first() =~= rest + kept + after);
        assert forall|i: int| 0 <= i < rest.len() implies text::white(#[trigger] rest[i]) by {
            assert(rest[i] == before[i + 1]);
        }
        trimming_takes_both_ends(rest, kept, after);
    } else {
        assert(before + kept + after =~= kept);
        text_lemmas::lemma_tight_trimmed(kept);
    }
}

/// Leading marks are taken away, all of them, and nothing else.
pub proof fn leading_marks_go(n: nat, c: char, rest: Seq<char>)
    requires
        rest.len() > 0 ==> rest[0] != c,
    ensures
        text::without_leading(Seq::new(n, |i: int| c) + rest, c) == rest,
    decreases n,
{
    let s = Seq::new(n, |i: int| c) + rest;
    if n == 0 {
        assert(s =~= rest);
    } else {
        assert(s.drop_first() =~= Seq::new((n - 1) as nat, |i: int| c) + rest);
        leading_marks_go((n - 1) as nat, c, rest);
    }
}

/// A text is split at the first separator: what stands before it and after it comes back;
/// one without a separator is not split.
pub proof fn splitting_is_at_the_first(a: Seq<char>, c: char, b: Seq<char>)
    requires
        lacks(a, c),
    ensures
        text::halves(a + seq![c] + b, c) == Some((a, b)),
        text::halves(a, c) is None,
{
    text_lemmas::lemma_halves_at(a, c, b);
    text_lemmas::lemma_position(a, c);
}

proof fn lemma_after_last(a: Seq<char>, c: char, b: Seq<char>)
    requires
        lacks(b, c),
    ensures
        text::after_last(a + seq![c] + b, c) == a.len() + 1,
        text::after_last(b, c) == 0,
    decreases b.len(),
{
    let s = a + seq![c] + b;
    if b.len() == 0 {
        assert(s.last() == c);
    } else {
        assert(b[b.len() - 1] != c);
        assert(s.drop_last() =~= a + seq![c] + b.drop_last());
        lemma_after_last(a, c, b.drop_last());
    }
}

/// Splitting from the end is at the last separator.
pub proof fn splitting_from_the_end_is_at_the_last(a: Seq<char>, c: char, b: Seq<char>)
    requires
        lacks(b, c),
    ensures
        text::last_halves(a + seq![c] + b, c) == Some((a, b)),
        text::last_halves(b, c) is None,
{
    let s = a + seq![c] + b;
    lemma_after_last(a, c, b);
    assert(s.take(a.len() as int) =~= a);
    assert(s.skip(a.len() as int + 1) =~= b);
}

/// A prefix is taken off a text exactly where the text begins with it.
pub proof fn prefix_comes_off(s: Seq<char>, p: Seq<char>, rest: Seq<char>)
    ensures
        text::after_prefix(p + rest, p) == Some(rest),
        text::after_prefix(s, p) is Some ==> s == p + text::after_prefix(s, p)->0,
{
    assert((p + rest).skip(p.len() as int) =~= rest);
    assert(p.is_prefix_of(p + rest));
    if p.is_prefix_of(s) {
        assert(s =~= p + s.skip(p.len() as int));
    }
}

/// A suffix is taken off a text that ends in it, once; another text stays as it is.
pub proof fn suffix_comes_off(s: Seq<char>, p: Seq<char>)
    ensures
        text::without_suffix(s + p, p) == s,
        text::without_suffix(s, p) == s || s == text::without_suffix(s, p) + p,
{
    assert((s + p).take(s.len() as int) =~= s);
    assert(p.is_suffix_of(s + p));
    if p.is_suffix_of(s) {
        assert(s =~= s.take(s.len() - p.len()) + p);
    }
}

/// A pattern is found where it stands first, and exactly where it stands at all.
pub proof fn pattern_is_found_where_it_stands_first(s: Seq<char>, p: Seq<char>)
    ensures
        match text::occurrence(s, p) {
            Some(i) => {
                &&& 0 <= i <= s.len() - p.len()
                &&& s.subrange(i, i + p.len()) == p
                &&& forall|j: int| 0 <= j < i ==> #[trigger] s.subrange(j, j + p.len()) != p
            },
            None => forall|j: int|
                0 <= j <= s.len() - p.len() ==> #[trigger] s.subrange(j, j + p.len()) != p,
        },
    decreases s.len(),
{
    if p.is_prefix_of(s) {
        assert(s.subrange(0, p.len() as int) =~= p);
    } else {
        if p.len() <= s.len() {
            assert(s.subrange(0, p.len() as int) != p);
        }
        if s.len() > 0 {
            let t = s.drop_first();
            pattern_is_found_where_it_stands_first(t, p);
            assert forall|j: int|
                1 <= j <= s.len() - p.len() implies #[trigger] s.subrange(j, j + p.len())
                == t.subrange(j - 1, j - 1 + p.len()) by {
                assert(s.subrange(j, j + p.len()) =~= t.subrange(j - 1, j - 1 + p.len()));
            }
        }
    }
}

/// A line ends at a line feed, with or without a carriage return before it; what follows the
/// last line feed is a line where it is not empty.
pub proof fn lines_end_at_line_feeds(a: Seq<char>, rest: Seq<char>)
    requires
        lacks(a, '\n'),
    ensures
        a.len() == 0 || a.last() != '\r' ==> text::lines_of(a + seq!['\n'] + rest) == seq![a]
            + text::lines_of(rest),
        text::lines_of(a + seq!['\r', '\n'] + rest) == seq![a] + text::lines_of(rest),
        a.len() > 0 ==> text::lines_of(a) == seq![a],
        text::lines_of(Seq::<char>::empty()).len() == 0,
{
    let s = a + seq!['\n'] + rest;
    text_lemmas::lemma_position_at(a, '\n', rest);
    assert(s.take(a.len() as int) =~= a);
    assert(s.skip(a.len() as int + 1) =~= rest);
    let b = a.push('\r');
    let t = a + seq!['\r', '\n'] + rest;
    assert(t =~= b + seq!['\n'] + rest);
    text_lemmas::lemma_position_at(b, '\n', rest);
    assert(t.take(b.len() as int) =~= b);
    assert(t.skip(b.len() as int + 1) =~= rest);
    assert(b.drop_last() =~= a);
    text_lemmas::lemma_position(a, '\n');
}

/// Pieces are what stands between separators: as many as there are separators, and one.
pub proof fn pieces_stand_between_separators(a: Seq<char>, c: char, rest: Seq<char>)
    requires
        lacks(a, c),
    ensures
        text::pieces(a, c) == seq![a],
        text::pieces(a + seq![c] + rest, c) == seq![a] + text::pieces(rest, c),
{
    text_lemmas::lemma_pieces_single(a, c);
    text_lemmas::lemma_pieces_front(a, c, rest);
}

/// Joining puts the separator between each two parts and nowhere else.
pub proof fn joining_separates(first: Seq<char>, rest: Seq<Seq<char>>, sep: Seq<char>)
    ensures
        text::joined(Seq::<Seq<char>>::empty(), sep).len() == 0,
        text::joined(seq![first], sep) == first,
        rest.len() > 0 ==> text::joined(seq![first] + rest, sep) == first + sep + text::joined(
            rest,
            sep,
        ),
{
    if rest.len() > 0 {
        let all = seq![first] + rest;
        text_lemmas::lemma_joined_front(all, sep);
        assert(all.drop_first() =~= rest);
    }
}

/// Texts are ordered by the first character in which they differ; a text comes before what
/// it begins; and two texts that are ordered both ways are the same.
pub proof fn texts_are_ordered_by_their_first_difference(
    front: Seq<char>,
    x: char,
    a: Seq<char>,
    y: char,
    b: Seq<char>,
)
    ensures
        text::ordered(front, front + a),
        a.len() > 0 ==> !text::ordered(front + a, front),
        x < y ==> text::ordered(front.push(x) + a, front.push(y) + b),
        x < y ==> !text::ordered(front.push(y) + b, front.push(x) + a),
    decreases front.len(),
{
    if front.len() > 0 {
        let t = front.drop_first();
        texts_are_ordered_by_their_first_difference(t, x, a, y, b);
        assert((front + a).drop_first() =~= t + a);
        assert((front.push(x) + a).drop_first() =~= t.push(x) + a);
        assert((front.push(y) + b).drop_first() =~= t.push(y) + b);
        assert((front + a)[0] == front[0]);
        assert((front.push(x) + a)[0] == front[0]);
        assert((front.push(y) + b)[0] == front[0]);
    } else {
        assert((front.push(x) + a)[0] == x);
        assert((front.push(y) + b)[0] == y);
    }
}

/// A number is written without leading zeros, digit by digit: ten times a number and a digit
/// is the number followed by the digit.
pub proof fn numbers_are_written_in_digits(n: nat, d: nat)
    requires
        d < 10,
    ensures
        text::decimal(d) == seq![('0' as u32 + d) as char],
        n > 0 ==> text::decimal(n * 10 + d) == text::decimal(n) + text::decimal(d),
{
    if n > 0 {
        assert((n * 10 + d) / 10 == n && (n * 10 + d) % 10 == d);
        assert(text::decimal(n * 10 + d) =~= text::decimal(n) + text::decimal(d));
    }
}

proof fn lemma_zeros(k: nat, rest: Seq<char>)
    ensures
        text::digits_value(Seq::new(k, |i: int| '0') + rest, 0) == text::digits_value(rest, 0),
    decreases k,
{
    let s = Seq::new(k, |i: int| '0') + rest;
    if k == 0 {
        assert(s =~= rest);
    } else {
        assert(s[0] == '0');
        assert(s.drop_first() =~= Seq::new((k - 1) as nat, |i: int| '0') + rest);
        lemma_zeros((k - 1) as nat, rest);
    }
}

/// Reading undoes writing, with any number of leading zeros, and with a sign in front.
pub proof fn written_numbers_read_back(n: nat, zeros: nat)
    requires
        n <= u32::MAX,
    ensures
        text::number(text::decimal(n)) == Ok::<nat, IntError>(n),
        text::number(Seq::new(zeros, |i: int| '0') + text::decimal(n)) == Ok::<nat, IntError>(n),
        text::number(seq!['+'] + Seq::new(zeros, |i: int| '0') + text::decimal(n)) == Ok::<
            nat,
            IntError,
        >(n),
{
    text_lemmas::lemma_number_decimal(n);
    text_lemmas::lemma_decimal_digits(n);
    lemma_zeros(zeros, text::decimal(n));
    let z = Seq::new(zeros, |i: int| '0') + text::decimal(n);
    assert(text::is_digit(text::decimal(n)[0]));
    if zeros > 0 {
        assert(z[0] == '0');
    } else {
        assert(z[0] == text::decimal(n)[0]);
    }
    let s = seq!['+'] + Seq::new(zeros, |i: int| '0') + text::decimal(n);
    assert(s.drop_first() =~= z);
}

/// What reads as a number holds nothing but digits behind an optional sign, and the number
/// fits in 32 bits. The empty text is told apart from one with a stray character.
pub proof fn numbers_hold_digits_only(s: Seq<char>)
    ensures
        text::number(s) is Ok ==> s.len() > 0 && text::number(s)->Ok_0 <= u32::MAX && forall|i: int|
            0 <= i < s.len() ==> '0' <= #[trigger] s[i] <= '9' || (i == 0 && s[i] == '+' && s.len()
                > 1),
        text::number(s) == Err::<nat, IntError>(IntError::Empty) <==> s.len() == 0,
{
    if text::number(s) is Ok {
        text_lemmas::lemma_number_bound(s);
        text_lemmas::lemma_number_chars(s);
    }
    lemma_never_empty(s, 0);
    if s.len() > 0 {
        lemma_never_empty(s.drop_first(), 0);
    }
}

proof fn lemma_never_empty(s: Seq<char>, acc: nat)
    ensures
        text::digits_value(s, acc) != Err::<nat, IntError>(IntError::Empty),
    decreases s.len(),
{
    if s.len() > 0 {
        lemma_never_empty(s.drop_first(), acc * 10 + (s[0] as u32 - '0' as u32) as nat);
    }
}

proof fn lemma_overflows(n: nat)
    requires
        n > u32::MAX,
    ensures
        text::digits_value(text::decimal(n), 0) == Err::<nat, IntError>(IntError::Overflow),
    decreases n,
{
    text_lemmas::lemma_digits_value_push(text::decimal(n / 10), text::digit(n % 10), 0);
    if n / 10 > u32::MAX {
        lemma_overflows(n / 10);
    } else {
        text_lemmas::lemma_number_decimal(n / 10);
        text_lemmas::lemma_decimal_digits(n / 10);
        assert(text::is_digit(text::decimal(n / 10)[0]));
    }
}

/// A number that does not fit in 32 bits is told apart from text that is none.
pub proof fn large_numbers_overflow(n: nat, c: char, rest: Seq<char>)
    requires
        n > u32::MAX,
        !('0' <= c <= '9'),
    ensures
        text::number(text::decimal(n)) == Err::<nat, IntError>(IntError::Overflow),
        c != '+' || rest.len() == 0 ==> text::number(seq![c] + rest) == Err::<nat, IntError>(
            IntError::InvalidDigit,
        ),
{
    lemma_overflows(n);
    text_lemmas::lemma_decimal_digits(n);
    assert(text::is_digit(text::decimal(n)[0]));
    assert((seq![c] + rest)[0] == c);
}

} // verus!
