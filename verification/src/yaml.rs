//! Line-oriented YAML: top-level scalar key-value pairs only. No nesting, no
//! flow style, no quoted values. Scripts match lines of it with anchored
//! patterns, so the format stays this strict.
use crate::text;
use crate::text_lemmas;
use vstd::prelude::*;

verus! {

/// A key-value pair as text.
pub type Entry = (Seq<char>, Seq<char>);

/// The line written for a pair; none for an empty value.
pub open spec fn written(e: Entry) -> Seq<char> {
    if e.1.len() == 0 {
        seq![]
    } else {
        e.0 + ": "@ + e.1 + "\n"@
    }
}

/// The document written for a list of pairs.
pub open spec fn document(pairs: Seq<Entry>) -> Seq<char>
    decreases pairs.len(),
{
    if pairs.len() == 0 {
        seq![]
    } else {
        document(pairs.drop_last()) + written(pairs.last())
    }
}

/// The pair that a line holds. Blank lines, `#`-comments, lines without a colon
/// and lines with an empty key hold none.
pub open spec fn entry_of(raw: Seq<char>) -> Option<Entry> {
    let line = text::without_leading(text::trimmed(raw), '\u{FEFF}');
    if line.len() == 0 || line[0] == '#' {
        None
    } else {
        match text::halves(line, ':') {
            Some((k, v)) => if text::trimmed(k).len() == 0 {
                None
            } else {
                Some((text::trimmed(k), text::trimmed(v)))
            },
            None => None,
        }
    }
}

/// The mapping that a list of lines holds; a later line replaces an earlier one.
pub open spec fn mapping(lines: Seq<Seq<char>>) -> Map<Seq<char>, Seq<char>>
    decreases lines.len(),
{
    if lines.len() == 0 {
        Map::empty()
    } else {
        let before = mapping(lines.drop_last());
        match entry_of(lines.last()) {
            Some((k, v)) => before.insert(k, v),
            None => before,
        }
    }
}

/// The mapping that a text holds.
pub open spec fn parsed(text: Seq<char>) -> Map<Seq<char>, Seq<char>> {
    mapping(text::lines_of(text))
}

/// The mapping of a list of pairs, without those whose value is empty.
pub open spec fn kept(pairs: Seq<Entry>) -> Map<Seq<char>, Seq<char>>
    decreases pairs.len(),
{
    if pairs.len() == 0 {
        Map::empty()
    } else {
        let before = kept(pairs.drop_last());
        if pairs.last().1.len() == 0 {
            before
        } else {
            before.insert(pairs.last().0, pairs.last().1)
        }
    }
}

/// A pair that survives being written and read: a key that is not empty and has
/// no colon, line break, surrounding white space, comment sign or byte order mark
/// at its front; a value without line breaks and surrounding white space.
pub open spec fn writable(e: Entry) -> bool {
    &&& e.0.len() > 0
    &&& text_lemmas::tight(e.0)
    &&& e.0[0] != '#'
    &&& e.0[0] != '\u{FEFF}'
    &&& text_lemmas::lacks(e.0, ':')
    &&& text_lemmas::lacks(e.0, '\n')
    &&& text_lemmas::tight(e.1)
    &&& text_lemmas::lacks(e.1, '\n')
}

/// The pairs of executable tuples.
pub open spec fn entries(pairs: Seq<(&str, String)>) -> Seq<Entry> {
    pairs.map_values(|p: (&str, String)| (p.0@, p.1@))
}

/// Serialize an ordered list of `(key, value)` pairs. Skips entries with empty values.
pub fn serialize(pairs: &[(&str, String)]) -> (r: String)
    ensures
        r@ == document(entries(pairs@)),
{
    let mut out = String::new();
    let mut i: usize = 0;
    while i < pairs.len()
        invariant
            i <= pairs.len(),
            out@ == document(entries(pairs@).take(i as int)),
        decreases pairs.len() - i,
    {
        let ghost upto = entries(pairs@).take(i + 1);
        let ghost before = out@;
        assert(upto.drop_last() =~= entries(pairs@).take(i as int));
        assert(upto.last() == (pairs@[i as int].0@, pairs@[i as int].1@));
        let k = pairs[i].0;
        let v = pairs[i].1.as_str();
        if !v.is_empty() {
            out.append(k);
            out.append(": ");
            out.append(v);
            out.append("\n");
            assert(out@ =~= before + written(upto.last()));
        } else {
            assert(out@ =~= before + written(upto.last()));
        }
        i = i + 1;
    }
    assert(entries(pairs@).take(i as int) =~= entries(pairs@));
    out
}

/// The mapping of executable tuples with distinct keys.
spec fn pair_map(e: Seq<(String, String)>) -> Map<Seq<char>, Seq<char>>
    decreases e.len(),
{
    if e.len() == 0 {
        Map::empty()
    } else {
        pair_map(e.drop_last()).insert(e.last().0@, e.last().1@)
    }
}

spec fn distinct(e: Seq<(String, String)>) -> bool {
    forall|i: int, j: int| 0 <= i < j < e.len() ==> e[i].0@ != e[j].0@
}

proof fn lemma_pair_map(e: Seq<(String, String)>)
    requires
        distinct(e),
    ensures
        forall|i: int|
            0 <= i < e.len() ==> #[trigger] pair_map(e).contains_key(e[i].0@) && pair_map(
                e,
            )[e[i].0@] == e[i].1@,
        forall|k: Seq<char>| #[trigger]
            pair_map(e).contains_key(k) ==> exists|i: int| 0 <= i < e.len() && #[trigger] e[i].0@
                == k,
        pair_map(e).dom().finite(),
        pair_map(e).dom().len() == e.len(),
    decreases e.len(),
{
    if e.len() > 0 {
        let d = e.drop_last();
        lemma_pair_map(d);
        assert(!pair_map(d).contains_key(e.last().0@)) by {
            if pair_map(d).contains_key(e.last().0@) {
                let i = choose|i: int| 0 <= i < d.len() && #[trigger] d[i].0@ == e.last().0@;
                assert(e[i].0@ == e[e.len() - 1].0@);
            }
        }
        assert forall|i: int| 0 <= i < e.len() implies #[trigger] pair_map(e).contains_key(
            e[i].0@,
        ) && pair_map(e)[e[i].0@] == e[i].1@ by {
            if i < d.len() {
                assert(d[i] == e[i]);
                assert(pair_map(d).contains_key(d[i].0@));
                assert(e[i].0@ != e[e.len() - 1].0@);
            }
        }
        assert forall|k: Seq<char>| #[trigger] pair_map(e).contains_key(k) implies exists|i: int|
            0 <= i < e.len() && #[trigger] e[i].0@ == k by {
            if k == e.last().0@ {
                assert(e[e.len() - 1].0@ == k);
            } else {
                assert(pair_map(d).contains_key(k));
                let i = choose|i: int| 0 <= i < d.len() && #[trigger] d[i].0@ == k;
                assert(e[i].0@ == k);
            }
        }
    }
}

/// A mapping from keys to scalar values, each key once.
#[derive(Debug)]
pub struct Scalars {
    entries: Vec<(String, String)>,
}

impl View for Scalars {
    type V = Map<Seq<char>, Seq<char>>;

    closed spec fn view(&self) -> Map<Seq<char>, Seq<char>> {
        pair_map(self.entries@)
    }
}

impl Scalars {
    #[verifier::type_invariant]
    spec fn keys_distinct(self) -> bool {
        distinct(self.entries@)
    }

    /// The value of `key`.
    pub fn get(&self, key: &str) -> (r: Option<&String>)
        ensures
            match r {
                Some(v) => self@.contains_key(key@) && self@[key@] == v@,
                None => !self@.contains_key(key@),
            },
    {
        proof {
            use_type_invariant(self);
            lemma_pair_map(self.entries@);
        }
        let mut i: usize = 0;
        while i < self.entries.len()
            invariant
                i <= self.entries.len(),
                distinct(self.entries@),
                forall|j: int| 0 <= j < i ==> (#[trigger] self.entries@[j]).0@ != key@,
            decreases self.entries.len() - i,
        {
            if text::same(self.entries[i].0.as_str(), key) {
                proof {
                    lemma_pair_map(self.entries@);
                }
                assert(self@.contains_key(self.entries@[i as int].0@));
                return Some(&self.entries[i].1);
            }
            i = i + 1;
        }
        None
    }

    /// How many keys there are.
    pub fn len(&self) -> (r: usize)
        ensures
            self@.dom().finite(),
            r == self@.dom().len(),
    {
        proof {
            use_type_invariant(self);
            lemma_pair_map(self.entries@);
        }
        self.entries.len()
    }

    /// Whether there is no key.
    pub fn is_empty(&self) -> (r: bool)
        ensures
            r == (self@ == Map::<Seq<char>, Seq<char>>::empty()),
    {
        proof {
            use_type_invariant(self);
            lemma_pair_map(self.entries@);
            if self.entries@.len() > 0 {
                assert(self@.contains_key(self.entries@[0].0@));
            }
        }
        self.entries.len() == 0
    }
}

/// `e` with the value of `k` set to `v`.
fn put(e: Vec<(String, String)>, k: String, v: String) -> (r: Vec<(String, String)>)
    requires
        distinct(e@),
    ensures
        distinct(r@),
        pair_map(r@) == pair_map(e@).insert(k@, v@),
{
    let mut r = e;
    let mut i: usize = 0;
    while i < r.len()
        invariant
            i <= r.len(),
            r@ == e@,
            distinct(e@),
            forall|j: int| 0 <= j < i ==> (#[trigger] e@[j]).0@ != k@,
        decreases r.len() - i,
    {
        if text::same(r[i].0.as_str(), k.as_str()) {
            let ghost was = r@;
            let ghost now = was.update(i as int, (k, v));
            r.set(i, (k, v));
            proof {
                assert(r@ == now);
                assert(distinct(now)) by {
                    assert forall|a: int, b: int| 0 <= a < b < now.len() implies now[a].0@
                        != now[b].0@ by {
                        assert(was[a].0@ != was[b].0@);
                        assert(now[a].0@ == was[a].0@);
                        assert(now[b].0@ == was[b].0@);
                    }
                }
                lemma_pair_map(was);
                lemma_pair_map(now);
                let m = pair_map(was).insert(k@, v@);
                assert forall|q: Seq<char>| pair_map(now).contains_key(q) == m.contains_key(q) by {
                    if pair_map(now).contains_key(q) {
                        let a = choose|a: int| 0 <= a < now.len() && #[trigger] now[a].0@ == q;
                        assert(was[a].0@ == q);
                    }
                    if m.contains_key(q) {
                        if q == k@ {
                            assert(now[i as int].0@ == q);
                        } else {
                            let a = choose|a: int| 0 <= a < was.len() && #[trigger] was[a].0@ == q;
                            assert(now[a].0@ == q);
                        }
                    }
                }
                assert forall|q: Seq<char>| pair_map(now).contains_key(q) implies pair_map(now)[q]
                    == m[q] by {
                    let a = choose|a: int| 0 <= a < now.len() && #[trigger] now[a].0@ == q;
                    if a != i {
                        assert(was[a] == now[a]);
                        assert(now[a].0@ != k@) by {
                            assert(was[i as int].0@ == k@);
                            if a < i {
                                assert(was[a].0@ != was[i as int].0@);
                            } else {
                                assert(was[i as int].0@ != was[a].0@);
                            }
                        }
                        assert(pair_map(was).contains_key(was[a].0@));
                    } else {
                        assert(now[a].1@ == v@);
                    }
                }
                assert(pair_map(now) =~= m);
            }
            return r;
        }
        i = i + 1;
    }
    r.push((k, v));
    proof {
        assert(r@.drop_last() =~= e@);
        assert forall|a: int, b: int| 0 <= a < b < r@.len() implies r@[a].0@ != r@[b].0@ by {
            if b < e@.len() {
                assert(e@[a].0@ != e@[b].0@);
            } else {
                assert(r@[a] == e@[a]);
            }
        }
    }
    r
}

/// The pair that a line holds.
fn parse_line<'a>(raw: &'a str) -> (r: Option<(&'a str, &'a str)>)
    ensures
        match (r, entry_of(raw@)) {
            (Some(p), Some(q)) => p.0@ == q.0 && p.1@ == q.1,
            (None, None) => true,
            _ => false,
        },
{
    let line = text::trim_start_matches(text::trim(raw), '\u{FEFF}');
    if line.is_empty() {
        return None;
    }
    if line.get_char(0) == '#' {
        return None;
    }
    match text::split_once(line, ':') {
        Some((k, v)) => {
            let key = text::trim(k);
            if key.is_empty() {
                None
            } else {
                Some((key, text::trim(v)))
            }
        },
        None => None,
    }
}

/// Parse line-oriented YAML. Tolerates blank lines and `#`-comments. Skips
/// malformed lines silently: the caller decides which keys are required.
pub fn parse(text: &str) -> (r: Scalars)
    ensures
        r@ == parsed(text@),
{
    let ls = text::lines(text);
    let mut out: Vec<(String, String)> = Vec::new();
    let mut i: usize = 0;
    assert(text::slices(ls@).take(0) =~= seq![]);
    while i < ls.len()
        invariant
            i <= ls.len(),
            distinct(out@),
            pair_map(out@) == mapping(text::slices(ls@).take(i as int)),
        decreases ls.len() - i,
    {
        let ghost upto = text::slices(ls@).take(i + 1);
        assert(upto.drop_last() =~= text::slices(ls@).take(i as int));
        assert(upto.last() == ls@[i as int]@);
        match parse_line(ls[i]) {
            Some((k, v)) => {
                out = put(out, text::own(k), text::own(v));
            },
            None => {},
        }
        i = i + 1;
    }
    assert(text::slices(ls@).take(i as int) =~= text::slices(ls@));
    Scalars { entries: out }
}

// ---------------------------------------------------------------------------
// Laws
// ---------------------------------------------------------------------------

/// A written line, read on its own, is the pair it was written for.
pub proof fn line_reads_back(e: Entry)
    requires
        writable(e),
        e.1.len() > 0,
    ensures
        entry_of(e.0 + ": "@ + e.1) == Some(e),
{
    reveal_strlit(": ");
    let line = e.0 + ": "@ + e.1;
    assert(": "@ =~= seq![':', ' ']);
    assert(line[0] == e.0[0]);
    assert(line.last() == e.1.last());
    text_lemmas::lemma_tight_trimmed(line);
    assert(line =~= e.0 + seq![':'] + (seq![' '] + e.1));
    text_lemmas::lemma_halves_at(e.0, ':', seq![' '] + e.1);
    text_lemmas::lemma_tight_trimmed(e.0);
    text_lemmas::lemma_trimmed_after_blank(e.1);
}

/// Reading what was written gives back every pair whose value is not empty.
pub proof fn parse_undoes_serialize(pairs: Seq<Entry>)
    requires
        forall|i: int| 0 <= i < pairs.len() ==> writable(#[trigger] pairs[i]),
    ensures
        parsed(document(pairs)) == kept(pairs),
{
    lemma_document_lines(pairs);
}

proof fn lemma_document_lines(pairs: Seq<Entry>)
    requires
        forall|i: int| 0 <= i < pairs.len() ==> writable(#[trigger] pairs[i]),
    ensures
        document(pairs).len() > 0 ==> document(pairs).last() == '\n',
        mapping(text::lines_of(document(pairs))) == kept(pairs),
    decreases pairs.len(),
{
    if pairs.len() == 0 {
        assert(text::lines_of(document(pairs)) =~= seq![]);
    } else {
        let before = pairs.drop_last();
        let e = pairs.last();
        lemma_document_lines(before);
        assert(writable(pairs[pairs.len() - 1]));
        if e.1.len() == 0 {
            assert(document(pairs) =~= document(before));
        } else {
            reveal_strlit(": ");
            reveal_strlit("\n");
            let line = e.0 + ": "@ + e.1;
            assert(": "@ =~= seq![':', ' ']);
            assert("\n"@ =~= seq!['\n']);
            assert(line + "\n"@ =~= line.push('\n'));
            assert(document(pairs) == document(before) + line.push('\n'));
            assert(text_lemmas::lacks(line, '\n'));
            text_lemmas::lemma_lines_append(document(before), line);
            assert(line.last() == e.1.last());
            assert(text::without_cr(line) == line);
            line_reads_back(e);
            let ls = text::lines_of(document(pairs));
            assert(ls.drop_last() =~= text::lines_of(document(before)));
        }
    }
}

/// Keys that occur once are found with their values; empty values are not found.
pub proof fn lemma_kept(pairs: Seq<Entry>)
    requires
        forall|i: int, j: int| 0 <= i < j < pairs.len() ==> pairs[i].0 != pairs[j].0,
    ensures
        forall|i: int|
            #![trigger pairs[i]]
            0 <= i < pairs.len() ==> (kept(pairs).contains_key(pairs[i].0) <==> pairs[i].1.len()
                > 0) && (pairs[i].1.len() > 0 ==> kept(pairs)[pairs[i].0] == pairs[i].1),
        forall|k: Seq<char>| #[trigger]
            kept(pairs).contains_key(k) ==> exists|i: int|
                0 <= i < pairs.len() && #[trigger] pairs[i].0 == k,
    decreases pairs.len(),
{
    if pairs.len() > 0 {
        let before = pairs.drop_last();
        lemma_kept(before);
        let n = pairs.len() - 1;
        assert forall|i: int| #![trigger pairs[i]] 0 <= i < pairs.len() implies (kept(
            pairs,
        ).contains_key(pairs[i].0) <==> pairs[i].1.len() > 0) && (pairs[i].1.len() > 0 ==> kept(
            pairs,
        )[pairs[i].0] == pairs[i].1) by {
            if i < n {
                assert(before[i] == pairs[i]);
                assert(pairs[i].0 != pairs[n].0);
            } else if kept(before).contains_key(pairs[n].0) {
                let j = choose|j: int| 0 <= j < before.len() && #[trigger] before[j].0 == pairs[n].0;
                assert(pairs[j].0 == pairs[n].0);
            }
        }
        assert forall|k: Seq<char>| #[trigger] kept(pairs).contains_key(k) implies exists|i: int|
            0 <= i < pairs.len() && #[trigger] pairs[i].0 == k by {
            if kept(before).contains_key(k) {
                let j = choose|j: int| 0 <= j < before.len() && #[trigger] before[j].0 == k;
                assert(pairs[j].0 == k);
            } else {
                assert(pairs[n].0 == k);
            }
        }
    }
}

/// Two mappings, the second's values before the first's.
pub open spec fn overridden(
    a: Map<Seq<char>, Seq<char>>,
    b: Map<Seq<char>, Seq<char>>,
) -> Map<Seq<char>, Seq<char>> {
    a.union_prefer_right(b)
}

proof fn lemma_mapping_joins(a: Seq<Seq<char>>, b: Seq<Seq<char>>)
    ensures
        mapping(a + b) == overridden(mapping(a), mapping(b)),
    decreases b.len(),
{
    if b.len() == 0 {
        assert(a + b =~= a);
        assert(overridden(mapping(a), mapping(b)) =~= mapping(a));
    } else {
        lemma_mapping_joins(a, b.drop_last());
        assert((a + b).drop_last() =~= a + b.drop_last());
        assert((a + b).last() == b.last());
        assert(mapping(a + b) =~= overridden(mapping(a), mapping(b)));
    }
}

/// A carriage return at its end changes nothing of what a line holds.
proof fn lemma_cr_is_white(line: Seq<char>)
    ensures
        entry_of(text::without_cr(line)) == entry_of(line),
{
    if line.len() > 0 && line.last() == '\r' {
        text_lemmas::lemma_trimmed_before_white(line.drop_last(), '\r');
        assert(line.drop_last().push('\r') =~= line);
    }
}

/// What one line holds.
proof fn lemma_one_line(line: Seq<char>)
    ensures
        mapping(seq![line]) == match entry_of(line) {
            Some((k, v)) => Map::empty().insert(k, v),
            None => Map::empty(),
        },
{
    let none: Seq<Seq<char>> = seq![];
    assert(seq![line].drop_last() =~= none);
    assert(mapping(none) == Map::<Seq<char>, Seq<char>>::empty());
    assert(seq![line].last() == line);
}

/// Reading one text after another gives the keys of both; where they share a key, the
/// second's value holds.
pub proof fn later_text_overrides(a: Seq<char>, b: Seq<char>)
    ensures
        parsed(a + "\n"@ + b) == overridden(parsed(a), parsed(b)),
    decreases a.len(),
{
    reveal_strlit("\n");
    let s = a + "\n"@ + b;
    let i = text::position(a, '\n') as int;
    text_lemmas::lemma_position(a, '\n');
    if i >= a.len() {
        assert(s =~= a + seq!['\n'] + b);
        text_lemmas::lemma_position_at(a, '\n', b);
        assert(s.take(i) =~= a);
        assert(s.skip(i + 1) =~= b);
        let first = seq![text::without_cr(a)];
        lemma_mapping_joins(first, text::lines_of(b));
        lemma_cr_is_white(a);
        lemma_one_line(a);
        lemma_one_line(text::without_cr(a));
        assert(mapping(first) == parsed(a)) by {
            if a.len() == 0 {
                assert(text::lines_of(a) =~= seq![]);
            }
        }
    } else {
        let rest = a.skip(i + 1);
        assert(s =~= a.take(i) + seq!['\n'] + (rest + "\n"@ + b));
        text_lemmas::lemma_position_at(a.take(i), '\n', rest + "\n"@ + b);
        assert(s.take(i) =~= a.take(i));
        assert(s.skip(i + 1) =~= rest + "\n"@ + b);
        later_text_overrides(rest, b);
        let first = seq![text::without_cr(a.take(i))];
        lemma_mapping_joins(first, text::lines_of(rest + "\n"@ + b));
        lemma_mapping_joins(first, text::lines_of(rest));
        assert(overridden(mapping(first), overridden(parsed(rest), parsed(b))) =~= overridden(
            overridden(mapping(first), parsed(rest)),
            parsed(b),
        ));
    }
}

/// A blank line or a comment at the end changes nothing.
pub proof fn comments_and_blanks_say_nothing(a: Seq<char>, line: Seq<char>)
    requires
        text_lemmas::lacks(line, '\n'),
        text::trimmed(line).len() == 0 || line[0] == '#',
    ensures
        parsed(a + "\n"@ + line) == parsed(a),
{
    later_text_overrides(a, line);
    text_lemmas::lemma_position(line, '\n');
    if text::trimmed(line).len() > 0 {
        text_lemmas::lemma_trimmed_front(line);
    }
    assert(entry_of(line) is None);
    assert(parsed(line) =~= Map::empty()) by {
        if line.len() == 0 {
            assert(text::lines_of(line) =~= seq![]);
        } else {
            assert(text::lines_of(line) =~= seq![line]);
            lemma_one_line(line);
        }
    }
    assert(overridden(parsed(a), parsed(line)) =~= parsed(a));
}

} // verus!
