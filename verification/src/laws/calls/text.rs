//! Laws of the text operations as they are called.
use crate::laws::text as text_laws;
use crate::text;
use crate::text::IntError;
use crate::text_lemmas::lacks;
use vstd::prelude::*;

verus! {

/// Owning and comparing texts.
pub proof fn texts_are_owned_and_compared(
    a: &str,
    b: &str,
    owned: String,
    cs: Vec<char>,
    same: bool,
    c: char,
    white: bool,
)
    requires
        call_ensures(text::own, (a,), owned),
        call_ensures(text::chars, (a,), cs),
        call_ensures(text::same, (a, b), same),
        call_ensures(text::is_white, (c,), white),
    ensures
        owned@ == a@,
        cs@ == a@,
        same <==> a@ == b@,
        c == ' ' || c == '\t' || c == '\n' || c == '\r' ==> white,
        '!' <= c <= '~' ==> !white,
{
    text_laws::white_space_is_blanks_and_separators(c);
}

/// `trim` gives what stands between the white space at both ends.
pub proof fn trim_gives_what_stands_between(
    s: &str,
    r: &str,
    before: Seq<char>,
    kept: Seq<char>,
    after: Seq<char>,
)
    requires
        call_ensures(text::trim, (s,), r),
        s@ == before + kept + after,
        forall|i: int| 0 <= i < before.len() ==> text::white(#[trigger] before[i]),
        forall|i: int| 0 <= i < after.len() ==> text::white(#[trigger] after[i]),
        kept.len() > 0 ==> !text::white(kept[0]) && !text::white(kept.last()),
    ensures
        r@ == kept,
{
    text_laws::trimming_takes_both_ends(before, kept, after);
}

/// The two ways to split at a character: at its first place, and at its last.
pub proof fn splits_are_at_the_first_and_the_last(
    s: &str,
    c: char,
    first: Option<(&str, &str)>,
    last: Option<(&str, &str)>,
    a: Seq<char>,
    b: Seq<char>,
)
    requires
        call_ensures(text::split_once, (s, c), first),
        call_ensures(text::rsplit_once, (s, c), last),
    ensures
        lacks(s@, c) <==> first is None,
        lacks(s@, c) <==> last is None,
        s@ == a + seq![c] + b && lacks(a, c) ==> (first matches Some((x, y)) && x@ == a && y@ == b),
        s@ == a + seq![c] + b && lacks(b, c) ==> (last matches Some((x, y)) && x@ == a && y@ == b),
{
    if lacks(s@, c) {
        text_laws::splitting_is_at_the_first(s@, c, b);
        text_laws::splitting_from_the_end_is_at_the_last(a, c, s@);
    } else {
        let i = choose|i: int| 0 <= i < s@.len() && s@[i] == c;
        crate::text_lemmas::lemma_position(s@, c);
        lemma_after_last_found(s@, c, i);
    }
    if s@ == a + seq![c] + b && lacks(a, c) {
        text_laws::splitting_is_at_the_first(a, c, b);
    }
    if s@ == a + seq![c] + b && lacks(b, c) {
        text_laws::splitting_from_the_end_is_at_the_last(a, c, b);
    }
}

proof fn lemma_after_last_found(s: Seq<char>, c: char, i: int)
    requires
        0 <= i < s.len(),
        s[i] == c,
    ensures
        text::after_last(s, c) > 0,
    decreases s.len(),
{
    if s.last() != c {
        assert(s.drop_last()[i] == c);
        lemma_after_last_found(s.drop_last(), c, i);
    }
}

/// Beginnings and ends: a text begins with another where it is that text and more, and then
/// the rest can be had; an end comes off once.
pub proof fn beginnings_and_ends(
    s: &str,
    p: &str,
    begins: bool,
    rest: Option<&str>,
    cut: &str,
    more: Seq<char>,
)
    requires
        call_ensures(text::starts_with, (s, p), begins),
        call_ensures(text::strip_prefix, (s, p), rest),
        call_ensures(text::trim_suffix, (s, p), cut),
    ensures
        s@ == p@ + more ==> begins && (rest matches Some(t) && t@ == more),
        begins <==> rest is Some,
        rest matches Some(t) ==> s@ == p@ + t@,
        s@ == more + p@ ==> cut@ == more,
        cut@ == s@ || s@ == cut@ + p@,
{
    text_laws::prefix_comes_off(s@, p@, more);
    text_laws::suffix_comes_off(more, p@);
    text_laws::suffix_comes_off(s@, p@);
    if s@ == p@ + more {
        assert(p@.is_prefix_of(p@ + more));
    }
}

/// A pattern is found at its first place, and a text is split around it there.
pub proof fn patterns_are_found_at_their_first_place(
    s: &str,
    p: &str,
    at: Option<usize>,
    halves: Option<(&str, &str)>,
    j: int,
)
    requires
        call_ensures(text::find_str, (s, p), at),
        call_ensures(text::split_once_str, (s, p), halves),
    ensures
        at matches Some(i) ==> s@.subrange(i as int, i + p@.len()) == p@ && (halves matches Some(
            (a, b),
        ) && a@ == s@.subrange(0, i as int) && b@ == s@.subrange(i + p@.len(), s@.len() as int)),
        at is None ==> halves is None,
        0 <= j <= s@.len() - p@.len() && s@.subrange(j, j + p@.len()) == p@ ==> (at matches Some(i)
            && i <= j),
{
    text_laws::pattern_is_found_where_it_stands_first(s@, p@);
    if let Some(i) = at {
        assert(s@.take(i as int) =~= s@.subrange(0, i as int));
        assert(s@.skip(i + p@.len()) =~= s@.subrange(i + p@.len(), s@.len() as int));
    }
}

/// Lines and pieces come in order, without what separates them; joining puts a separator
/// between each two.
pub proof fn lines_and_pieces(
    s: &str,
    lines: Vec<&str>,
    c: char,
    pieces: Vec<&str>,
    a: Seq<char>,
    parts: &Vec<String>,
    sep: &str,
    joined: String,
)
    requires
        call_ensures(text::lines, (s,), lines),
        call_ensures(text::split, (s, c), pieces),
        call_ensures(text::join, (parts, sep), joined),
    ensures
        s@.len() == 0 ==> lines@.len() == 0,
        s@.len() > 0 && lacks(s@, '\n') ==> lines@.len() == 1 && lines@[0]@ == s@,
        lacks(a, '\n') && s@ == a + seq!['\n'] && (a.len() == 0 || a.last() != '\r') ==> lines@.len()
            == 1 && lines@[0]@ == a,
        lacks(a, '\n') && s@ == a + seq!['\r', '\n'] ==> lines@.len() == 1 && lines@[0]@ == a,
        lacks(s@, c) ==> pieces@.len() == 1 && pieces@[0]@ == s@,
        pieces@.len() > 0,
        parts@.len() == 0 ==> joined@.len() == 0,
        parts@.len() == 1 ==> joined@ == parts@[0]@,
        parts@.len() == 2 ==> joined@ == parts@[0]@ + sep@ + parts@[1]@,
{
    let empty = Seq::<char>::empty();
    text_laws::lines_end_at_line_feeds(empty, empty);
    assert(text::slices(lines@).len() == lines@.len());
    assert(text::slices(pieces@).len() == pieces@.len());
    if s@.len() == 0 {
        assert(s@ =~= empty);
    }
    if lacks(s@, '\n') {
        text_laws::lines_end_at_line_feeds(s@, empty);
    }
    if lacks(a, '\n') {
        text_laws::lines_end_at_line_feeds(a, empty);
        assert(a + seq!['\n'] + empty =~= a + seq!['\n']);
        assert(a + seq!['\r', '\n'] + empty =~= a + seq!['\r', '\n']);
    }
    if lines@.len() > 0 {
        assert(text::slices(lines@)[0] == lines@[0]@);
    }
    if lacks(s@, c) {
        text_laws::pieces_stand_between_separators(s@, c, empty);
    }
    if pieces@.len() > 0 {
        assert(text::slices(pieces@)[0] == pieces@[0]@);
    }
    let views = text::texts(parts@);
    assert(views.len() == parts@.len());
    if parts@.len() >= 1 {
        assert(views[0] == parts@[0]@);
        text_laws::joining_separates(views[0], views.drop_first(), sep@);
        if parts@.len() == 1 {
            assert(views =~= seq![views[0]]);
        }
        if parts@.len() == 2 {
            assert(views =~= seq![views[0]] + views.drop_first());
            assert(views.drop_first() =~= seq![views[1]]);
            text_laws::joining_separates(views[1], views, sep@);
        }
    }
}

/// Numbers are read back from what they are written as; what is not a number is refused.
pub proof fn numbers_are_written_and_read(
    n: u64,
    written: String,
    s: &str,
    read: Result<u32, IntError>,
)
    requires
        call_ensures(text::to_decimal, (n,), written),
        call_ensures(text::parse_u32, (s,), read),
    ensures
        n <= u32::MAX && s@ == written@ ==> read == Ok::<u32, IntError>(n as u32),
        n > u32::MAX && s@ == written@ ==> read == Err::<u32, IntError>(IntError::Overflow),
        s@.len() == 0 <==> read == Err::<u32, IntError>(IntError::Empty),
        s@.len() > 0 && !('0' <= s@[0] <= '9') && s@[0] != '+' ==> read == Err::<u32, IntError>(
            IntError::InvalidDigit,
        ),
        forall|i: int| 0 <= i < written@.len() ==> '0' <= #[trigger] written@[i] <= '9',
        written@.len() > 0,
{
    if n <= u32::MAX {
        text_laws::written_numbers_read_back(n as nat, 0);
    } else {
        text_laws::large_numbers_overflow(n as nat, 'x', Seq::empty());
    }
    text_laws::numbers_hold_digits_only(s@);
    if s@.len() > 0 && !('0' <= s@[0] <= '9') {
        assert(s@ =~= seq![s@[0]] + s@.drop_first());
        text_laws::large_numbers_overflow(u32::MAX as nat + 1, s@[0], s@.drop_first());
    }
    crate::text_lemmas::lemma_decimal_digits(n as nat);
    assert forall|i: int| 0 <= i < written@.len() implies '0' <= #[trigger] written@[i] <= '9' by {
        assert(text::is_digit(text::decimal(n as nat)[i]));
    }
}

/// Texts are compared by their first difference.
pub proof fn texts_are_in_order(
    a: &str,
    b: &str,
    r: bool,
    front: Seq<char>,
    x: char,
    p: Seq<char>,
    y: char,
    q: Seq<char>,
)
    requires
        call_ensures(text::in_order, (a, b), r),
    ensures
        a@ == b@ ==> r,
        b@ == a@ + p ==> r,
        a@ == b@ + p && p.len() > 0 ==> !r,
        a@ == front.push(x) + p && b@ == front.push(y) + q && x < y ==> r,
        a@ == front.push(y) + p && b@ == front.push(x) + q && x < y ==> !r,
{
    text_laws::texts_are_ordered_by_their_first_difference(front, x, p, y, q);
    text_laws::texts_are_ordered_by_their_first_difference(front, x, q, y, p);
    text_laws::texts_are_ordered_by_their_first_difference(a@, x, p, y, q);
    text_laws::texts_are_ordered_by_their_first_difference(b@, x, p, y, q);
    text_laws::texts_are_ordered_by_their_first_difference(a@, x, Seq::empty(), y, q);
    assert(a@ + Seq::<char>::empty() =~= a@);
}

/// Texts that may be missing are compared, owned and borrowed as they are; leading marks go.
pub proof fn missing_texts_stay_missing(
    a: Option<&str>,
    b: Option<&str>,
    same: bool,
    owned: Option<String>,
    s: &Option<String>,
    lent: Option<&str>,
    t: &str,
    c: char,
    bare: &str,
    n: nat,
    rest: Seq<char>,
)
    requires
        call_ensures(text::same_opt, (a, b), same),
        call_ensures(text::own_opt, (a,), owned),
        call_ensures(text::borrow_opt, (s,), lent),
        call_ensures(text::trim_start_matches, (t, c), bare),
    ensures
        a is None && b is None ==> same,
        (a is None) != (b is None) ==> !same,
        a matches Some(x) ==> (b matches Some(y) ==> (same <==> x@ == y@)),
        a matches Some(x) ==> (owned matches Some(y) && y@ == x@),
        a is None ==> owned is None,
        *s matches Some(x) ==> (lent matches Some(y) && y@ == x@),
        *s is None ==> lent is None,
        t@ == Seq::new(n, |i: int| c) + rest && (rest.len() > 0 ==> rest[0] != c) ==> bare@ == rest,
{
    if rest.len() > 0 ==> rest[0] != c {
        text_laws::leading_marks_go(n, c, rest);
    }
}

/// A character is looked for from a place on.
pub proof fn a_character_is_found_from(cs: &Vec<char>, from: usize, c: char, r: usize)
    requires
        from <= cs@.len(),
        call_ensures(text::find_from, (cs, from, c), r),
    ensures
        from <= r <= cs@.len(),
        r < cs@.len() ==> cs@[r as int] == c,
        forall|i: int| from <= i < r ==> cs@[i] != c,
{
    let tail = cs@.skip(from as int);
    crate::text_lemmas::lemma_position(tail, c);
    assert forall|i: int| from <= i < r implies cs@[i] != c by {
        assert(tail[i - from] == cs@[i]);
    }
}

} // verus!
