//! Laws of the flat files of keys and values.
use crate::laws::text as text_laws;
use crate::text;
use crate::text_lemmas;
use crate::text_lemmas::lacks;
use crate::yaml;
use crate::yaml::Entry;
use vstd::prelude::*;

verus! {

/// A line is a key and a value around its first colon, each without the white space around
/// it, whatever stands in the value.
pub proof fn a_line_is_key_and_value(
    before: Seq<char>,
    key: Seq<char>,
    value: Seq<char>,
    after: Seq<char>,
)
    requires
        forall|i: int| 0 <= i < before.len() ==> text::white(#[trigger] before[i]),
        forall|i: int| 0 <= i < after.len() ==> text::white(#[trigger] after[i]),
        key.len() > 0,
        lacks(key, ':'),
        !text::white(key[0]),
        !text::white(key.last()),
        key[0] != '#',
        key[0] != '\u{FEFF}',
        value.len() > 0,
        !text::white(value[0]),
        !text::white(value.last()),
    ensures
        yaml::entry_of(before + key + seq![':'] + value + after) == Some((key, value)),
        yaml::entry_of(before + key + seq![':', ' '] + value + after) == Some((key, value)),
{
    lemma_line(before, key, value, after, Seq::empty());
    assert(before + key + seq![':'] + value + after =~= before + (key + seq![':']
        + Seq::<char>::empty() + value) + after);
    lemma_line(before, key, value, after, seq![' ']);
    assert(before + key + seq![':', ' '] + value + after =~= before + (key + seq![':'] + seq![' ']
        + value) + after);
}

proof fn lemma_line(
    before: Seq<char>,
    key: Seq<char>,
    value: Seq<char>,
    after: Seq<char>,
    gap: Seq<char>,
)
    requires
        forall|i: int| 0 <= i < before.len() ==> text::white(#[trigger] before[i]),
        forall|i: int| 0 <= i < after.len() ==> text::white(#[trigger] after[i]),
        forall|i: int| 0 <= i < gap.len() ==> text::white(#[trigger] gap[i]),
        key.len() > 0,
        lacks(key, ':'),
        !text::white(key[0]),
        !text::white(key.last()),
        key[0] != '#',
        key[0] != '\u{FEFF}',
        value.len() > 0,
        !text::white(value[0]),
        !text::white(value.last()),
    ensures
        yaml::entry_of(before + (key + seq![':'] + gap + value) + after) == Some((key, value)),
{
    let line = key + seq![':'] + gap + value;
    assert(line[0] == key[0]);
    assert(line.last() == value.last());
    text_laws::trimming_takes_both_ends(before, line, after);
    assert(line =~= key + seq![':'] + (gap + value));
    text_laws::splitting_is_at_the_first(key, ':', gap + value);
    text_lemmas::lemma_tight_trimmed(key);
    text_laws::trimming_takes_both_ends(gap, value, Seq::empty());
    assert(gap + value + Seq::<char>::empty() =~= gap + value);
}

/// A comment, a blank line, and a line without a colon or without a key hold nothing.
pub proof fn other_lines_hold_nothing(line: Seq<char>, rest: Seq<char>)
    ensures
        yaml::entry_of(seq!['#'] + rest) is None,
        text::trimmed(line).len() == 0 ==> yaml::entry_of(line) is None,
        lacks(line, ':') ==> yaml::entry_of(line) is None,
        yaml::entry_of(seq![':'] + rest) is None,
{
    let c = seq!['#'] + rest;
    assert(c[0] == '#');
    text_lemmas::lemma_trimmed_front(c);
    if lacks(line, ':') {
        let t = text::without_leading(text::trimmed(line), '\u{FEFF}');
        lemma_trimmed_lacks(line, ':');
        lemma_leading_lacks(text::trimmed(line), '\u{FEFF}', ':');
        text_laws::splitting_is_at_the_first(t, ':', t);
    }
    let d = seq![':'] + rest;
    assert(d[0] == ':');
    text_lemmas::lemma_trimmed_front(d);
    let t = text::trimmed(d);
    let empty = Seq::<char>::empty();
    assert(t =~= empty + seq![':'] + t.drop_first());
    text_laws::splitting_is_at_the_first(empty, ':', t.drop_first());
    assert(text::trimmed(empty) =~= empty);
}

proof fn lemma_trimmed_lacks(s: Seq<char>, c: char)
    requires
        lacks(s, c),
    ensures
        lacks(text::trimmed(s), c),
    decreases s.len(),
{
    if s.len() > 0 && text::white(s[0]) {
        assert forall|i: int| 0 <= i < s.drop_first().len() implies s.drop_first()[i] != c by {
            assert(s.drop_first()[i] == s[i + 1]);
        }
        lemma_trimmed_lacks(s.drop_first(), c);
    } else {
        lemma_right_lacks(s, c);
    }
}

proof fn lemma_right_lacks(s: Seq<char>, c: char)
    requires
        lacks(s, c),
    ensures
        lacks(text::right_trimmed(s), c),
    decreases s.len(),
{
    if s.len() > 0 && text::white(s.last()) {
        assert forall|i: int| 0 <= i < s.drop_last().len() implies s.drop_last()[i] != c by {
            assert(s.drop_last()[i] == s[i]);
        }
        lemma_right_lacks(s.drop_last(), c);
    }
}

proof fn lemma_leading_lacks(s: Seq<char>, m: char, c: char)
    requires
        lacks(s, c),
    ensures
        lacks(text::without_leading(s, m), c),
    decreases s.len(),
{
    if s.len() > 0 && s[0] == m {
        assert forall|i: int| 0 <= i < s.drop_first().len() implies s.drop_first()[i] != c by {
            assert(s.drop_first()[i] == s[i + 1]);
        }
        lemma_leading_lacks(s.drop_first(), m, c);
    }
}

/// Each pair is written on a line of its own, `key: value`, in order; one with an empty value
/// is left out.
pub proof fn pairs_are_written_line_by_line(pairs: Seq<Entry>, key: Seq<char>, value: Seq<char>)
    ensures
        yaml::document(Seq::empty()).len() == 0,
        value.len() > 0 ==> yaml::document(pairs.push((key, value))) == yaml::document(pairs) + key
            + ": "@ + value + "\n"@,
        value.len() == 0 ==> yaml::document(pairs.push((key, value))) == yaml::document(pairs),
{
    let more = pairs.push((key, value));
    assert(more.drop_last() =~= pairs);
    assert(more.last() == (key, value));
    if value.len() > 0 {
        assert(yaml::document(more) =~= yaml::document(pairs) + key + ": "@ + value + "\n"@);
    } else {
        assert(yaml::document(more) =~= yaml::document(pairs));
    }
}

/// A key has the value of the last line that gives one, and is there exactly where a line
/// gives it.
pub proof fn the_last_line_counts(lines: Seq<Seq<char>>, line: Seq<char>, key: Seq<char>)
    ensures
        !yaml::mapping(Seq::empty()).contains_key(key),
        yaml::entry_of(line) matches Some((k, v)) ==> {
            &&& yaml::mapping(lines.push(line)).contains_key(k)
            &&& yaml::mapping(lines.push(line))[k] == v
            &&& key != k ==> (yaml::mapping(lines.push(line)).contains_key(key) <==> yaml::mapping(
                lines,
            ).contains_key(key)) && yaml::mapping(lines.push(line))[key] == yaml::mapping(lines)[key]
        },
        yaml::entry_of(line) is None ==> yaml::mapping(lines.push(line)) == yaml::mapping(lines),
{
    assert(lines.push(line).drop_last() =~= lines);
    assert(lines.push(line).last() == line);
    assert(yaml::mapping(Seq::empty()) =~= Map::empty());
}

/// Byte order marks in front of a line are not part of its key.
pub proof fn byte_order_marks_are_no_key(n: nat, key: Seq<char>, value: Seq<char>)
    requires
        key.len() > 0,
        lacks(key, ':'),
        !text::white(key[0]),
        !text::white(key.last()),
        key[0] != '#',
        key[0] != '\u{FEFF}',
        value.len() > 0,
        !text::white(value[0]),
        !text::white(value.last()),
    ensures
        yaml::entry_of(Seq::new(n, |i: int| '\u{FEFF}') + (key + seq![':'] + value)) == Some(
            (key, value),
        ),
{
    let marks = Seq::new(n, |i: int| '\u{FEFF}');
    let line = key + seq![':'] + value;
    let whole = marks + line;
    assert(line[0] == key[0]);
    assert(whole.last() == value.last());
    if n > 0 {
        assert(whole[0] == '\u{FEFF}');
    } else {
        assert(whole[0] == key[0]);
    }
    text_lemmas::lemma_tight_trimmed(whole);
    text_laws::leading_marks_go(n, '\u{FEFF}', line);
    text_laws::splitting_is_at_the_first(key, ':', value);
    text_lemmas::lemma_tight_trimmed(key);
    text_lemmas::lemma_tight_trimmed(value);
}

} // verus!
