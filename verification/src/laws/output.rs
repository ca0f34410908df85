//! Laws of what the program prints and how it ends.
use crate::error::Error;
use crate::exit::ExitKind;
use crate::exit;
use crate::laws::lists;
use crate::output;
use crate::output::{Ending, Failure, Outcome, Output};
use crate::text;
use vstd::prelude::*;

verus! {

/// The exit codes and their names: three where every candidate is taken, four where the
/// group is full, six where the lease is held.
pub proof fn exit_codes_are()
    ensures
        exit::exit_code(ExitKind::Contended) == 3,
        exit::exit_code(ExitKind::Capacity) == 4,
        exit::exit_code(ExitKind::LeaseHeld) == 6,
        exit::exit_label(ExitKind::Contended) == "contended"@,
        exit::exit_label(ExitKind::Capacity) == "capacity"@,
        exit::exit_label(ExitKind::LeaseHeld) == "lease-held"@,
{
}

/// A failed command prints nothing on stdout, tells its message on stderr, and exits with
/// the code of its kind, or with one.
pub proof fn failures_are_told(x: Error, e: Ending)
    requires
        output::ends_with(Err(x), e),
    ensures
        e.stdout is None,
        e.stderr matches Some(m) && m@ == "error: "@ + x.message@,
        x.kind is None ==> e.code == 1,
        x.kind == Some(ExitKind::Contended) ==> e.code == 3,
        x.kind == Some(ExitKind::Capacity) ==> e.code == 4,
        x.kind == Some(ExitKind::LeaseHeld) ==> e.code == 6,
{
}

/// An outcome prints its payload as it is. It exits with zero and a clean stderr where it did
/// not fail.
pub proof fn outcomes_are_printed(o: Outcome, e: Ending)
    requires
        output::ends_with(Ok(o), e),
    ensures
        o.output is Empty ==> e.stdout is None,
        o.output matches Output::Line(s) ==> (e.stdout matches Some(t) && t@ == s@),
        o.output matches Output::Json(j) ==> (e.stdout matches Some(t) && t@ == j@),
        o.failure is None ==> e.code == 0 && e.stderr is None,
        o.failure matches Some(Failure::Reported(x)) ==> (e.stderr matches Some(m) && m@ == "error: "@
            + x.message@) && (x.kind is None ==> e.code == 1),
        o.failure matches Some(Failure::Silent(c)) ==> e.code == c && e.stderr is None,
{
}

/// Quoting goes character by character.
pub proof fn quoting_goes_by_character(a: Seq<char>, b: Seq<char>)
    ensures
        output::json_chars(a + b) == output::json_chars(a) + output::json_chars(b),
    decreases b.len(),
{
    if b.len() == 0 {
        assert(a + b =~= a);
        assert(output::json_chars(b) =~= Seq::empty());
        assert(output::json_chars(a) + output::json_chars(b) =~= output::json_chars(a));
    } else {
        quoting_goes_by_character(a, b.drop_last());
        assert((a + b).drop_last() =~= a + b.drop_last());
        assert((a + b).last() == b.last());
        assert(output::json_chars(a + b) =~= output::json_chars(a) + output::json_chars(b));
    }
}

/// A plain character stands for itself; the quote and the backslash stand behind a backslash;
/// the controls with a name of their own go by it.
pub proof fn characters_are_quoted(c: char)
    ensures
        c != '"' && c != '\\' && c >= ' ' ==> output::json_char(c) == seq![c],
        output::json_char('"') == seq!['\\', '"'],
        output::json_char('\\') == seq!['\\', '\\'],
        output::json_char('\n') == seq!['\\', 'n'],
        output::json_char('\r') == seq!['\\', 'r'],
        output::json_char('\t') == seq!['\\', 't'],
        output::json_char('\u{8}') == seq!['\\', 'b'],
        output::json_char('\u{c}') == seq!['\\', 'f'],
        output::json_char('\u{1f}') == seq!['\\', 'u', '0', '0', '1', 'f'],
        output::json_char('\u{0}') == seq!['\\', 'u', '0', '0', '0', '0'],
{
}

proof fn lemma_char_apart(a: char, b: char, x: Seq<char>, y: Seq<char>)
    requires
        output::json_char(a) + x == output::json_char(b) + y,
    ensures
        a == b,
        x == y,
{
    let s = output::json_char(a) + x;
    let p = output::json_char(a);
    let q = output::json_char(b);
    assert(s[0] == p[0] && s[0] == q[0]);
    if p.len() > 1 {
        assert(s[1] == p[1]);
    }
    if q.len() > 1 {
        assert(s[1] == q[1]);
    }
    if p.len() > 5 && q.len() > 5 {
        assert(s[4] == p[4] && s[4] == q[4] && s[5] == p[5] && s[5] == q[5]);
    }
    assert(p.len() == q.len());
    assert(x =~= s.skip(p.len() as int));
    assert(y =~= s.skip(q.len() as int));
}

proof fn lemma_chars_apart(a: Seq<char>, b: Seq<char>)
    requires
        output::json_chars(a) == output::json_chars(b),
    ensures
        a == b,
    decreases a.len(),
{
    if a.len() > 0 && b.len() > 0 {
        assert(a =~= seq![a[0]] + a.drop_first());
        assert(b =~= seq![b[0]] + b.drop_first());
        quoting_goes_by_character(seq![a[0]], a.drop_first());
        quoting_goes_by_character(seq![b[0]], b.drop_first());
        lemma_one_char(a[0]);
        lemma_one_char(b[0]);
        lemma_char_apart(
            a[0],
            b[0],
            output::json_chars(a.drop_first()),
            output::json_chars(b.drop_first()),
        );
        lemma_chars_apart(a.drop_first(), b.drop_first());
    } else if a.len() > 0 {
        assert(output::json_chars(a).len() > 0);
    } else if b.len() > 0 {
        assert(output::json_chars(b).len() > 0);
    } else {
        assert(a =~= b);
    }
}

proof fn lemma_one_char(c: char)
    ensures
        output::json_chars(seq![c]) == output::json_char(c),
{
    assert(seq![c].drop_last() =~= Seq::empty());
    assert(output::json_chars(Seq::empty()) =~= Seq::<char>::empty());
    assert(output::json_chars(seq![c]) =~= output::json_char(c));
}

/// Different texts are quoted differently: a reader can tell which text was meant.
pub proof fn quoting_tells_texts_apart(a: Seq<char>, b: Seq<char>)
    requires
        output::json_quote(a) == output::json_quote(b),
    ensures
        a == b,
{
    let q = output::json_quote(a);
    assert(output::json_chars(a) =~= q.subrange(1, q.len() - 1));
    assert(output::json_chars(b) =~= q.subrange(1, q.len() - 1));
    lemma_chars_apart(a, b);
}

/// The forms of the values: what is not there is `null`, arrays and objects hold their items
/// in order between commas, and each field's name is quoted.
pub proof fn values_are_written(
    items: Seq<Seq<char>>,
    fields: Seq<(Seq<char>, Seq<char>)>,
    key: Seq<char>,
    value: Seq<char>,
    t: Seq<char>,
    n: u32,
)
    ensures
        output::opt_text(None) == "null"@,
        output::opt_text(Some(t)) == output::json_quote(t),
        output::opt_number(None) == "null"@,
        output::opt_number(Some(n)) == text::decimal(n as nat),
        output::bool_text(true) == "true"@,
        output::bool_text(false) == "false"@,
        output::array_text(items) == "["@ + text::joined(items, ","@) + "]"@,
        output::object_text(seq![(key, value)]) == "{"@ + output::json_quote(key) + ":"@ + value
            + "}"@,
        fields.len() > 0 ==> output::object_text(fields.push((key, value)))
            == output::object_text(fields).drop_last() + ","@ + output::json_quote(key) + ":"@
            + value + "}"@,
{
    reveal_strlit("}");
    let one = seq![(key, value)];
    assert(output::field_texts(one) =~= seq![output::json_quote(key) + ":"@ + value]);
    assert("{"@ + (output::json_quote(key) + ":"@ + value) + "}"@ =~= "{"@ + output::json_quote(key)
        + ":"@ + value + "}"@);
    if fields.len() > 0 {
        let more = fields.push((key, value));
        let parts = output::field_texts(more);
        assert(parts.drop_last() =~= output::field_texts(fields));
        assert(parts.last() == output::json_quote(key) + ":"@ + value);
        assert(parts.len() > 1);
        assert(output::object_text(fields).drop_last() =~= "{"@ + text::joined(
            output::field_texts(fields),
            ","@,
        ));
        assert(output::object_text(more) =~= output::object_text(fields).drop_last() + ","@
            + output::json_quote(key) + ":"@ + value + "}"@);
    }
}

/// Lines are reported one by one, each quoted; empty ones are left out.
pub proof fn lines_are_quoted_one_by_one(lines: Seq<Seq<char>>)
    ensures
        output::quoted_lines(lines) == lines.filter(|l: Seq<char>| l.len() > 0).map_values(
            |l: Seq<char>| output::json_quote(l),
        ),
    decreases lines.len(),
{
    let filled = |l: Seq<char>| l.len() > 0;
    let quote = |l: Seq<char>| output::json_quote(l);
    if lines.len() == 0 {
        lists::lemma_filter_none(filled);
        assert(lines =~= Seq::empty());
        assert(output::quoted_lines(lines) =~= lines.filter(filled).map_values(quote));
    } else {
        lists::lemma_filter_last(lines, filled);
        lines_are_quoted_one_by_one(lines.drop_last());
        assert(output::quoted_lines(lines) =~= lines.filter(filled).map_values(quote));
    }
}

/// A quoted text stands between two quotes.
pub proof fn a_quoted_text_stands_between_quotes(s: Seq<char>)
    ensures
        output::json_quote(s).len() >= 2,
        output::json_quote(s)[0] == '"',
        output::json_quote(s).last() == '"',
        output::json_quote(s).subrange(1, output::json_quote(s).len() - 1) == output::json_chars(s),
        output::json_quote(Seq::empty()) == seq!['"', '"'],
{
    let q = output::json_quote(s);
    assert(q.subrange(1, q.len() - 1) =~= output::json_chars(s));
    assert(output::json_chars(Seq::empty()) =~= Seq::<char>::empty());
    assert(output::json_quote(Seq::empty()) =~= seq!['"', '"']);
}

} // verus!
