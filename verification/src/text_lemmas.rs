//! Facts about the text models of `text`.
use crate::text;
use crate::text::IntError;
use vstd::prelude::*;

verus! {

/// `c` does not occur in `s`.
pub open spec fn lacks(s: Seq<char>, c: char) -> bool {
    forall|i: int| 0 <= i < s.len() ==> s[i] != c
}

/// `s` has no white space at either end.
pub open spec fn tight(s: Seq<char>) -> bool {
    s.len() > 0 ==> !text::white(s[0]) && !text::white(s.last())
}

/// What `position` finds: the first `c`, or the end.
pub proof fn lemma_position(s: Seq<char>, c: char)
    ensures
        text::position(s, c) <= s.len(),
        forall|i: int| 0 <= i < text::position(s, c) ==> s[i] != c,
        text::position(s, c) < s.len() ==> s[text::position(s, c) as int] == c,
        lacks(s, c) <==> text::position(s, c) == s.len(),
    decreases s.len(),
{
    if s.len() == 0 || s[0] == c {
    } else {
        let t = s.drop_first();
        lemma_position(t, c);
        assert forall|i: int| 0 <= i < text::position(s, c) implies s[i] != c by {
            if i > 0 {
                assert(t[i - 1] == s[i]);
            }
        }
        if lacks(s, c) {
            assert forall|i: int| 0 <= i < t.len() implies t[i] != c by {
                assert(t[i] == s[i + 1]);
            }
        }
    }
}

/// A text that lacks `c`, followed by a `c`, has its first `c` there.
pub proof fn lemma_position_at(a: Seq<char>, c: char, b: Seq<char>)
    requires
        lacks(a, c),
    ensures
        text::position(a + seq![c] + b, c) == a.len(),
{
    let s = a + seq![c] + b;
    lemma_position(s, c);
    let p = text::position(s, c) as int;
    assert(s[a.len() as int] == c);
    if p < a.len() {
        assert(s[p] == a[p]);
    }
}

/// Splitting at a `c` that the first part lacks gives the two parts back.
pub proof fn lemma_halves_at(a: Seq<char>, c: char, b: Seq<char>)
    requires
        lacks(a, c),
    ensures
        text::halves(a + seq![c] + b, c) == Some((a, b)),
{
    let s = a + seq![c] + b;
    lemma_position_at(a, c, b);
    assert(s.take(a.len() as int) =~= a);
    assert(s.skip(a.len() as int + 1) =~= b);
}

/// Tight texts are their own trimming.
pub proof fn lemma_tight_trimmed(s: Seq<char>)
    requires
        tight(s),
    ensures
        text::trimmed(s) == s,
{
}

/// White space at the end is trimmed away.
pub proof fn lemma_trimmed_before_white(s: Seq<char>, c: char)
    requires
        text::white(c),
    ensures
        text::trimmed(s.push(c)) == text::trimmed(s),
    decreases s.len(),
{
    let t = s.push(c);
    if s.len() == 0 {
        assert(t.drop_first() =~= s);
        assert(text::left_trimmed(t) == text::left_trimmed(s));
    } else if text::white(s[0]) {
        assert(t[0] == s[0]);
        assert(t.drop_first() =~= s.drop_first().push(c));
        lemma_trimmed_before_white(s.drop_first(), c);
    } else {
        assert(t[0] == s[0]);
        assert(text::left_trimmed(t) == t && text::left_trimmed(s) == s);
        assert(t.drop_last() =~= s);
    }
}

/// A text that begins with no white space is trimmed at its end only.
pub proof fn lemma_trimmed_front(s: Seq<char>)
    requires
        s.len() > 0,
        !text::white(s[0]),
    ensures
        text::trimmed(s).len() > 0,
        text::trimmed(s)[0] == s[0],
{
    lemma_right_trimmed_front(s);
}

proof fn lemma_right_trimmed_front(s: Seq<char>)
    requires
        s.len() > 0,
        !text::white(s[0]),
    ensures
        text::right_trimmed(s).len() > 0,
        text::right_trimmed(s)[0] == s[0],
    decreases s.len(),
{
    if text::white(s.last()) {
        assert(s.len() > 1);
        lemma_right_trimmed_front(s.drop_last());
    }
}

/// A leading blank is trimmed away.
pub proof fn lemma_trimmed_after_blank(v: Seq<char>)
    requires
        tight(v),
    ensures
        text::trimmed(seq![' '] + v) == v,
{
    let s = seq![' '] + v;
    assert(s.drop_first() =~= v);
    assert(text::left_trimmed(s) == text::left_trimmed(v));
}

/// Appending a terminated line to terminated text appends that line.
pub proof fn lemma_lines_append(d: Seq<char>, line: Seq<char>)
    requires
        d.len() == 0 || d.last() == '\n',
        lacks(line, '\n'),
    ensures
        text::lines_of(d + line.push('\n')) == text::lines_of(d).push(text::without_cr(line)),
    decreases d.len(),
{
    let s = d + line.push('\n');
    if d.len() == 0 {
        assert(s =~= line + seq!['\n'] + Seq::<char>::empty());
        lemma_position_at(line, '\n', seq![]);
        let i = line.len() as int;
        assert(s.take(i) =~= line);
        assert(s.skip(i + 1) =~= Seq::<char>::empty());
        assert(text::lines_of(Seq::<char>::empty()) =~= seq![]);
        assert(text::lines_of(s) =~= seq![text::without_cr(line)]);
        assert(text::lines_of(d).push(text::without_cr(line)) =~= seq![text::without_cr(line)]);
    } else {
        lemma_position(d, '\n');
        let i = text::position(d, '\n') as int;
        if i == d.len() {
            assert(d[d.len() - 1] != '\n');
        }
        assert(s =~= d.take(i) + seq!['\n'] + (d.skip(i + 1) + line.push('\n')));
        lemma_position_at(d.take(i), '\n', d.skip(i + 1) + line.push('\n'));
        assert(s.take(i) =~= d.take(i));
        assert(s.skip(i + 1) =~= d.skip(i + 1) + line.push('\n'));
        let rest = d.skip(i + 1);
        if rest.len() > 0 {
            assert(rest.last() == d.last());
        }
        lemma_lines_append(rest, line);
        assert(text::lines_of(s) =~= text::lines_of(d).push(text::without_cr(line)));
    }
}

/// The digits of a number are digits, and there is at least one.
pub proof fn lemma_decimal_digits(n: nat)
    ensures
        text::decimal(n).len() > 0,
        forall|i: int| 0 <= i < text::decimal(n).len() ==> text::is_digit(#[trigger] text::decimal(n)[i]),
    decreases n,
{
    if n >= 10 {
        lemma_decimal_digits(n / 10);
    }
}

/// Reading one more digit goes on from what the digits before it came to.
pub proof fn lemma_digits_value_push(s: Seq<char>, c: char, acc: nat)
    ensures
        text::digits_value(s.push(c), acc) == match text::digits_value(s, acc) {
            Ok(v) => text::digits_value(seq![c], v),
            Err(e) => Err(e),
        },
    decreases s.len(),
{
    if s.len() == 0 {
        assert(s.push(c) =~= seq![c]);
    } else {
        assert(s.push(c).drop_first() =~= s.drop_first().push(c));
        if text::is_digit(s[0]) {
            let next = acc * 10 + (s[0] as u32 - '0' as u32) as nat;
            lemma_digits_value_push(s.drop_first(), c, next);
        }
    }
}

proof fn lemma_digits_value_decimal(n: nat)
    requires
        n <= u32::MAX,
    ensures
        text::digits_value(text::decimal(n), 0) == Ok::<nat, IntError>(n),
    decreases n,
{
    reveal_with_fuel(text::digits_value, 2);
    if n < 10 {
        assert(seq![text::digit(n)].drop_first() =~= Seq::<char>::empty());
    } else {
        lemma_digits_value_decimal(n / 10);
        lemma_digits_value_push(text::decimal(n / 10), text::digit(n % 10), 0);
        assert(seq![text::digit(n % 10)].drop_first() =~= Seq::<char>::empty());
    }
}

/// Reading a number's decimal text gives the number back.
pub proof fn lemma_number_decimal(n: nat)
    requires
        n <= u32::MAX,
    ensures
        text::number(text::decimal(n)) == Ok::<nat, IntError>(n),
{
    lemma_decimal_digits(n);
    lemma_digits_value_decimal(n);
    assert(text::is_digit(text::decimal(n)[0]));
}

proof fn lemma_digits_bound(s: Seq<char>, acc: nat)
    requires
        text::digits_value(s, acc) is Ok,
        acc <= u32::MAX,
    ensures
        text::digits_value(s, acc)->Ok_0 <= u32::MAX,
    decreases s.len(),
{
    if s.len() > 0 {
        lemma_digits_bound(s.drop_first(), acc * 10 + (s[0] as u32 - '0' as u32) as nat);
    }
}

/// A number that is read fits in 32 bits.
pub proof fn lemma_number_bound(s: Seq<char>)
    requires
        text::number(s) is Ok,
    ensures
        text::number(s)->Ok_0 <= u32::MAX,
{
    if s[0] == '+' && s.len() > 1 {
        lemma_digits_bound(s.drop_first(), 0);
    } else {
        lemma_digits_bound(s, 0);
    }
}

/// A text that reads as a number has only digits after an optional sign.
pub proof fn lemma_number_chars(s: Seq<char>)
    requires
        text::number(s) is Ok,
    ensures
        s.len() > 0,
        forall|i: int| 0 <= i < s.len() ==> text::is_digit(#[trigger] s[i]) || (i == 0 && s[i] == '+'),
{
    if s[0] == '+' && s.len() > 1 {
        lemma_digits_only(s.drop_first(), 0);
        assert forall|i: int| 0 <= i < s.len() implies text::is_digit(#[trigger] s[i]) || (i == 0 && s[i]
            == '+') by {
            if i > 0 {
                assert(s.drop_first()[i - 1] == s[i]);
            }
        }
    } else {
        lemma_digits_only(s, 0);
    }
}

proof fn lemma_digits_only(s: Seq<char>, acc: nat)
    requires
        text::digits_value(s, acc) is Ok,
    ensures
        forall|i: int| 0 <= i < s.len() ==> text::is_digit(#[trigger] s[i]),
    decreases s.len(),
{
    if s.len() > 0 {
        let t = s.drop_first();
        let next = acc * 10 + (s[0] as u32 - '0' as u32) as nat;
        lemma_digits_only(t, next);
        assert forall|i: int| 0 <= i < s.len() implies text::is_digit(#[trigger] s[i]) by {
            if i > 0 {
                assert(t[i - 1] == s[i]);
            }
        }
    }
}

/// Prefixing a piece and a separator prefixes a piece.
pub proof fn lemma_pieces_front(a: Seq<char>, c: char, b: Seq<char>)
    requires
        lacks(a, c),
    ensures
        text::pieces(a + seq![c] + b, c) == seq![a] + text::pieces(b, c),
{
    let s = a + seq![c] + b;
    lemma_position_at(a, c, b);
    assert(s.take(a.len() as int) =~= a);
    assert(s.skip(a.len() as int + 1) =~= b);
}

/// A text that lacks the separator is one piece.
pub proof fn lemma_pieces_single(a: Seq<char>, c: char)
    requires
        lacks(a, c),
    ensures
        text::pieces(a, c) == seq![a],
{
    lemma_position(a, c);
}

/// Joining from the front.
pub proof fn lemma_joined_front(parts: Seq<Seq<char>>, sep: Seq<char>)
    requires
        parts.len() > 1,
    ensures
        text::joined(parts, sep) == parts[0] + sep + text::joined(parts.drop_first(), sep),
    decreases parts.len(),
{
    let tail = parts.drop_first();
    reveal_with_fuel(text::joined, 2);
    if parts.len() == 2 {
        assert(parts.drop_last() =~= seq![parts[0]]);
        assert(tail =~= seq![parts[1]]);
    } else {
        lemma_joined_front(parts.drop_last(), sep);
        assert(parts.drop_last().drop_first() =~= tail.drop_last());
        assert(text::joined(parts, sep) =~= parts[0] + sep + text::joined(tail, sep));
    }
}

/// Joining keeps tightness and the absence of line breaks.
pub proof fn lemma_joined_tight(parts: Seq<Seq<char>>, sep: Seq<char>)
    requires
        forall|i: int|
            0 <= i < parts.len() ==> tight(#[trigger] parts[i]) && lacks(parts[i], '\n'),
        sep.len() > 0,
        tight(sep),
        lacks(sep, '\n'),
    ensures
        tight(text::joined(parts, sep)),
        lacks(text::joined(parts, sep), '\n'),
    decreases parts.len(),
{
    if parts.len() > 1 {
        let front = parts.drop_last();
        assert forall|i: int| 0 <= i < front.len() implies tight(#[trigger] front[i]) && lacks(
            front[i],
            '\n',
        ) by {
            assert(front[i] == parts[i]);
        }
        lemma_joined_tight(front, sep);
        let last = parts.last();
        assert(last == parts[parts.len() - 1]);
        let all = text::joined(parts, sep);
        assert(all == text::joined(front, sep) + sep + last);
        assert(all[0] == if text::joined(front, sep).len() > 0 {
            text::joined(front, sep)[0]
        } else {
            sep[0]
        });
        assert(all.last() == if last.len() > 0 {
            last.last()
        } else {
            sep.last()
        });
    } else if parts.len() == 1 {
        assert(text::joined(parts, sep) == parts[0]);
    }
}

/// Splitting what was joined gives the parts back, where none holds the separator.
pub proof fn lemma_pieces_joined(parts: Seq<Seq<char>>, c: char)
    requires
        parts.len() > 0,
        forall|i: int| 0 <= i < parts.len() ==> lacks(#[trigger] parts[i], c),
    ensures
        text::pieces(text::joined(parts, seq![c]), c) == parts,
    decreases parts.len(),
{
    if parts.len() == 1 {
        lemma_pieces_single(parts[0], c);
        assert(parts =~= seq![parts[0]]);
    } else {
        let tail = parts.drop_first();
        assert forall|i: int| 0 <= i < tail.len() implies lacks(#[trigger] tail[i], c) by {
            assert(tail[i] == parts[i + 1]);
        }
        lemma_pieces_joined(tail, c);
        lemma_joined_front(parts, seq![c]);
        lemma_pieces_front(parts[0], c, text::joined(tail, seq![c]));
        assert(seq![parts[0]] + tail =~= parts);
    }
}

/// The order is total.
pub proof fn lemma_ordered_total(a: Seq<char>, b: Seq<char>)
    ensures
        text::ordered(a, b) || text::ordered(b, a),
    decreases a.len(),
{
    if a.len() > 0 && b.len() > 0 && a[0] == b[0] {
        lemma_ordered_total(a.drop_first(), b.drop_first());
    }
}

/// The order is transitive.
pub proof fn lemma_ordered_transitive(a: Seq<char>, b: Seq<char>, c: Seq<char>)
    requires
        text::ordered(a, b),
        text::ordered(b, c),
    ensures
        text::ordered(a, c),
    decreases a.len(),
{
    if a.len() > 0 && a[0] == b[0] && b[0] == c[0] {
        lemma_ordered_transitive(a.drop_first(), b.drop_first(), c.drop_first());
    }
}

} // verus!
