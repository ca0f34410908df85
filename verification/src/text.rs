//! Character-level text operations and the sequences they compute.
//!
//! Text is modelled as `Seq<char>`. Each executable function below is paired
//! with a specification function that says what it computes.
use vstd::prelude::*;

verus! {

// ---------------------------------------------------------------------------
// Models
// ---------------------------------------------------------------------------

/// The texts of a sequence of owned strings.
pub open spec fn texts(v: Seq<String>) -> Seq<Seq<char>> {
    v.map_values(|s: String| s@)
}

/// The texts of a sequence of borrowed strings.
pub open spec fn slices(v: Seq<&str>) -> Seq<Seq<char>> {
    v.map_values(|s: &str| s@)
}

/// The text of an optional owned string.
pub open spec fn opt_text(s: Option<String>) -> Option<Seq<char>> {
    match s {
        Some(t) => Some(t@),
        None => None,
    }
}

/// The text of an optional borrowed string.
pub open spec fn opt_slice(s: Option<&str>) -> Option<Seq<char>> {
    match s {
        Some(t) => Some(t@),
        None => None,
    }
}

/// Unicode `White_Space`.
pub open spec fn white(c: char) -> bool {
    let u = c as u32;
    ||| 0x9 <= u <= 0xd
    ||| u == 0x20
    ||| u == 0x85
    ||| u == 0xa0
    ||| u == 0x1680
    ||| 0x2000 <= u <= 0x200a
    ||| u == 0x2028
    ||| u == 0x2029
    ||| u == 0x202f
    ||| u == 0x205f
    ||| u == 0x3000
}

/// `s` without its leading white space.
pub open spec fn left_trimmed(s: Seq<char>) -> Seq<char>
    decreases s.len(),
{
    if s.len() > 0 && white(s[0]) {
        left_trimmed(s.drop_first())
    } else {
        s
    }
}

/// `s` without its trailing white space.
pub open spec fn right_trimmed(s: Seq<char>) -> Seq<char>
    decreases s.len(),
{
    if s.len() > 0 && white(s.last()) {
        right_trimmed(s.drop_last())
    } else {
        s
    }
}

/// `s` without white space at either end.
pub open spec fn trimmed(s: Seq<char>) -> Seq<char> {
    right_trimmed(left_trimmed(s))
}

/// `s` without leading occurrences of `c`.
pub open spec fn without_leading(s: Seq<char>, c: char) -> Seq<char>
    decreases s.len(),
{
    if s.len() > 0 && s[0] == c {
        without_leading(s.drop_first(), c)
    } else {
        s
    }
}

/// Index of the first `c` in `s`, or `s.len()` if there is none.
pub open spec fn position(s: Seq<char>, c: char) -> nat
    decreases s.len(),
{
    if s.len() == 0 || s[0] == c {
        0
    } else {
        1 + position(s.drop_first(), c)
    }
}

/// One more than the index of the last `c` in `s`, or 0 if there is none.
pub open spec fn after_last(s: Seq<char>, c: char) -> nat
    decreases s.len(),
{
    if s.len() == 0 || s.last() == c {
        s.len()
    } else {
        after_last(s.drop_last(), c)
    }
}

/// Index of the first occurrence of `p` in `s`.
pub open spec fn occurrence(s: Seq<char>, p: Seq<char>) -> Option<int>
    decreases s.len(),
{
    if p.is_prefix_of(s) {
        Some(0)
    } else if s.len() == 0 {
        None
    } else {
        match occurrence(s.drop_first(), p) {
            Some(i) => Some(i + 1),
            None => None,
        }
    }
}

/// What stands before and after the first `c`.
pub open spec fn halves(s: Seq<char>, c: char) -> Option<(Seq<char>, Seq<char>)> {
    let i = position(s, c) as int;
    if i < s.len() {
        Some((s.take(i), s.skip(i + 1)))
    } else {
        None
    }
}

/// What stands before and after the last `c`.
pub open spec fn last_halves(s: Seq<char>, c: char) -> Option<(Seq<char>, Seq<char>)> {
    let i = after_last(s, c) as int;
    if i > 0 {
        Some((s.take(i - 1), s.skip(i)))
    } else {
        None
    }
}

/// What follows the prefix `p`, where `s` starts with it.
pub open spec fn after_prefix(s: Seq<char>, p: Seq<char>) -> Option<Seq<char>> {
    if p.is_prefix_of(s) {
        Some(s.skip(p.len() as int))
    } else {
        None
    }
}

/// `s` without the suffix `p`, where it ends with it, else `s` itself.
pub open spec fn without_suffix(s: Seq<char>, p: Seq<char>) -> Seq<char> {
    if p.is_suffix_of(s) {
        s.take(s.len() - p.len())
    } else {
        s
    }
}

/// `s` without one trailing carriage return.
pub open spec fn without_cr(s: Seq<char>) -> Seq<char> {
    if s.len() > 0 && s.last() == '\r' {
        s.drop_last()
    } else {
        s
    }
}

/// The lines of `s`: each ends at a `\n` or a `\r\n`, which is not part of it;
/// the ending of the last line is optional.
pub open spec fn lines_of(s: Seq<char>) -> Seq<Seq<char>>
    decreases s.len(),
{
    let i = position(s, '\n') as int;
    if s.len() == 0 {
        seq![]
    } else if i >= s.len() {
        seq![s]
    } else {
        seq![without_cr(s.take(i))] + lines_of(s.skip(i + 1))
    }
}

/// The pieces of `s` between occurrences of `c`.
pub open spec fn pieces(s: Seq<char>, c: char) -> Seq<Seq<char>>
    decreases s.len(),
{
    let i = position(s, c) as int;
    if i >= s.len() {
        seq![s]
    } else {
        seq![s.take(i)] + pieces(s.skip(i + 1), c)
    }
}

/// The parts, with `sep` between each two.
pub open spec fn joined(parts: Seq<Seq<char>>, sep: Seq<char>) -> Seq<char>
    decreases parts.len(),
{
    if parts.len() == 0 {
        seq![]
    } else if parts.len() == 1 {
        parts[0]
    } else {
        joined(parts.drop_last(), sep) + sep + parts.last()
    }
}

/// Lexicographic order by code point.
pub open spec fn ordered(a: Seq<char>, b: Seq<char>) -> bool
    decreases a.len(),
{
    if a.len() == 0 {
        true
    } else if b.len() == 0 {
        false
    } else if a[0] == b[0] {
        ordered(a.drop_first(), b.drop_first())
    } else {
        a[0] < b[0]
    }
}

/// The decimal digit of a number below ten.
pub open spec fn digit(d: nat) -> char {
    if d == 0 {
        '0'
    } else if d == 1 {
        '1'
    } else if d == 2 {
        '2'
    } else if d == 3 {
        '3'
    } else if d == 4 {
        '4'
    } else if d == 5 {
        '5'
    } else if d == 6 {
        '6'
    } else if d == 7 {
        '7'
    } else if d == 8 {
        '8'
    } else {
        '9'
    }
}

/// `n` in decimal, without leading zeros.
pub open spec fn decimal(n: nat) -> Seq<char>
    decreases n,
{
    if n < 10 {
        seq![digit(n)]
    } else {
        decimal(n / 10).push(digit(n % 10))
    }
}

/// ASCII decimal digit.
pub open spec fn is_digit(c: char) -> bool {
    '0' <= c <= '9'
}

/// Why a text is no `u32`.
#[derive(Debug, Clone, Copy, PartialEq, Eq, Structural)]
pub enum IntError {
    Empty,
    InvalidDigit,
    Overflow,
}

/// The number that the digits of `s` write, read after a number `acc`.
/// Reading stops at the first character that is no digit or no longer fits.
pub open spec fn digits_value(s: Seq<char>, acc: nat) -> Result<nat, IntError>
    decreases s.len(),
{
    if s.len() == 0 {
        Ok(acc)
    } else if !is_digit(s[0]) {
        Err(IntError::InvalidDigit)
    } else {
        let next = acc * 10 + (s[0] as u32 - '0' as u32) as nat;
        if next > u32::MAX {
            Err(IntError::Overflow)
        } else {
            digits_value(s.drop_first(), next)
        }
    }
}

/// The `u32` that `s` writes: an optional `+`, then decimal digits.
pub open spec fn number(s: Seq<char>) -> Result<nat, IntError> {
    if s.len() == 0 {
        Err(IntError::Empty)
    } else if s[0] == '+' && s.len() > 1 {
        digits_value(s.drop_first(), 0)
    } else {
        digits_value(s, 0)
    }
}

// ---------------------------------------------------------------------------
// Executable functions
// ---------------------------------------------------------------------------

/// The characters of `s`, in order.
pub fn chars(s: &str) -> (v: Vec<char>)
    ensures
        v@ == s@,
{
    let mut v: Vec<char> = Vec::new();
    for c in it: s.chars()
        invariant
            it.seq() == s@,
            v@ == s@.take(it.index()),
    {
        v.push(c);
        assert(s@.take(it.index() + 1) =~= s@.take(it.index()).push(c));
    }
    assert(s@.take(s@.len() as int) =~= s@);
    v
}

/// An owned copy of `s`.
pub fn own(s: &str) -> (r: String)
    ensures
        r@ == s@,
{
    s.to_owned()
}

/// Whether two texts are equal.
pub fn same(a: &str, b: &str) -> (r: bool)
    ensures
        r == (a@ == b@),
{
    let x = chars(a);
    let y = chars(b);
    if x.len() != y.len() {
        return false;
    }
    let mut i: usize = 0;
    while i < x.len()
        invariant
            i <= x.len(),
            x@ == a@,
            y@ == b@,
            x.len() == y.len(),
            forall|k: int| 0 <= k < i ==> x@[k] == y@[k],
        decreases x.len() - i,
    {
        if x[i] != y[i] {
            return false;
        }
        i = i + 1;
    }
    assert(a@ =~= b@);
    true
}

/// Whether two optional texts are equal.
pub fn same_opt(a: Option<&str>, b: Option<&str>) -> (r: bool)
    ensures
        r == (opt_slice(a) == opt_slice(b)),
{
    match (a, b) {
        (Some(x), Some(y)) => same(x, y),
        (None, None) => true,
        _ => false,
    }
}

/// An owned copy of an optional text.
pub fn own_opt(s: Option<&str>) -> (r: Option<String>)
    ensures
        opt_text(r) == opt_slice(s),
{
    match s {
        Some(t) => Some(own(t)),
        None => None,
    }
}

/// A borrowed view of an optional text.
pub fn borrow_opt(s: &Option<String>) -> (r: Option<&str>)
    ensures
        opt_slice(r) == opt_text(*s),
{
    match s {
        Some(t) => Some(t.as_str()),
        None => None,
    }
}

/// Whether `c` is Unicode white space.
pub fn is_white(c: char) -> (r: bool)
    ensures
        r == white(c),
{
    let u: u32 = c as u32;
    (0x9 <= u && u <= 0xd) || u == 0x20 || u == 0x85 || u == 0xa0 || u == 0x1680 || (0x2000 <= u
        && u <= 0x200a) || u == 0x2028 || u == 0x2029 || u == 0x202f || u == 0x205f || u == 0x3000
}

/// `s` without white space at either end.
pub fn trim<'a>(s: &'a str) -> (r: &'a str)
    ensures
        r@ == trimmed(s@),
{
    let cs = chars(s);
    let n: usize = cs.len();
    let mut a: usize = 0;
    assert(s@.skip(0) =~= s@);
    while a < n && is_white(cs[a])
        invariant
            a <= n,
            n == cs.len(),
            cs@ == s@,
            left_trimmed(s@) == left_trimmed(s@.skip(a as int)),
        decreases n - a,
    {
        assert(s@.skip(a as int).drop_first() =~= s@.skip(a + 1));
        a = a + 1;
    }
    let mut b: usize = n;
    assert(s@.skip(a as int) =~= s@.subrange(a as int, b as int));
    while a < b && is_white(cs[b - 1])
        invariant
            a <= b <= n,
            n == cs.len(),
            cs@ == s@,
            left_trimmed(s@) == s@.skip(a as int),
            right_trimmed(s@.skip(a as int)) == right_trimmed(s@.subrange(a as int, b as int)),
        decreases b - a,
    {
        assert(s@.subrange(a as int, b as int).drop_last() =~= s@.subrange(a as int, b - 1));
        b = b - 1;
    }
    s.substring_char(a, b)
}

/// `s` without leading occurrences of `c`.
pub fn trim_start_matches<'a>(s: &'a str, c: char) -> (r: &'a str)
    ensures
        r@ == without_leading(s@, c),
{
    let cs = chars(s);
    let n: usize = cs.len();
    let mut a: usize = 0;
    assert(s@.skip(0) =~= s@);
    while a < n && cs[a] == c
        invariant
            a <= n,
            n == cs.len(),
            cs@ == s@,
            without_leading(s@, c) == without_leading(s@.skip(a as int), c),
        decreases n - a,
    {
        assert(s@.skip(a as int).drop_first() =~= s@.skip(a + 1));
        a = a + 1;
    }
    assert(s@.subrange(a as int, n as int) =~= s@.skip(a as int));
    s.substring_char(a, n)
}

/// Index of the first `c` at or after `from`, or the length if there is none.
pub fn find_from(cs: &Vec<char>, from: usize, c: char) -> (r: usize)
    requires
        from <= cs.len(),
    ensures
        from <= r <= cs.len(),
        r == from + position(cs@.skip(from as int), c),
{
    let n: usize = cs.len();
    let mut i: usize = from;
    while i < n && cs[i] != c
        invariant
            from <= i <= n,
            n == cs.len(),
            from + position(cs@.skip(from as int), c) == i + position(cs@.skip(i as int), c),
        decreases n - i,
    {
        assert(cs@.skip(i as int).drop_first() =~= cs@.skip(i + 1));
        i = i + 1;
    }
    i
}

/// What stands before and after the first `c`.
pub fn split_once<'a>(s: &'a str, c: char) -> (r: Option<(&'a str, &'a str)>)
    ensures
        match (r, halves(s@, c)) {
            (Some(p), Some(q)) => p.0@ == q.0 && p.1@ == q.1,
            (None, None) => true,
            _ => false,
        },
{
    let cs = chars(s);
    assert(s@.skip(0) =~= s@);
    let i: usize = find_from(&cs, 0, c);
    if i < cs.len() {
        assert(s@.subrange(0, i as int) =~= s@.take(i as int));
        assert(s@.subrange(i + 1, s@.len() as int) =~= s@.skip(i + 1));
        Some((s.substring_char(0, i), s.substring_char(i + 1, cs.len())))
    } else {
        None
    }
}

/// What stands before and after the last `c`.
pub fn rsplit_once<'a>(s: &'a str, c: char) -> (r: Option<(&'a str, &'a str)>)
    ensures
        match (r, last_halves(s@, c)) {
            (Some(p), Some(q)) => p.0@ == q.0 && p.1@ == q.1,
            (None, None) => true,
            _ => false,
        },
{
    let cs = chars(s);
    let n: usize = cs.len();
    let mut i: usize = n;
    assert(s@.take(n as int) =~= s@);
    while i > 0 && cs[i - 1] != c
        invariant
            i <= n,
            n == cs.len(),
            cs@ == s@,
            after_last(s@, c) == after_last(s@.take(i as int), c),
        decreases i,
    {
        assert(s@.take(i as int).drop_last() =~= s@.take(i - 1));
        i = i - 1;
    }
    if i > 0 {
        assert(s@.subrange(0, i - 1) =~= s@.take(i - 1));
        assert(s@.subrange(i as int, s@.len() as int) =~= s@.skip(i as int));
        Some((s.substring_char(0, i - 1), s.substring_char(i, n)))
    } else {
        None
    }
}

/// Whether the characters of `p` stand in `cs` from `at` on.
fn stands_at(cs: &Vec<char>, at: usize, p: &Vec<char>) -> (r: bool)
    requires
        at <= cs.len(),
    ensures
        r == p@.is_prefix_of(cs@.skip(at as int)),
{
    if p.len() > cs.len() - at {
        return false;
    }
    let mut i: usize = 0;
    while i < p.len()
        invariant
            i <= p.len(),
            at + p.len() <= cs.len(),
            forall|k: int| 0 <= k < i ==> p@[k] == cs@[at + k],
        decreases p.len() - i,
    {
        if p[i] != cs[at + i] {
            assert(cs@.skip(at as int)[i as int] == cs@[at + i]);
            return false;
        }
        i = i + 1;
    }
    assert(p@ =~= cs@.skip(at as int).subrange(0, p@.len() as int));
    true
}

/// Whether `s` starts with `p`.
pub fn starts_with(s: &str, p: &str) -> (r: bool)
    ensures
        r == p@.is_prefix_of(s@),
{
    let cs = chars(s);
    let ps = chars(p);
    assert(s@.skip(0) =~= s@);
    stands_at(&cs, 0, &ps)
}

/// What follows the prefix `p`, where `s` starts with it.
pub fn strip_prefix<'a>(s: &'a str, p: &str) -> (r: Option<&'a str>)
    ensures
        opt_slice(r) == after_prefix(s@, p@),
{
    if starts_with(s, p) {
        let k: usize = p.unicode_len();
        let n: usize = s.unicode_len();
        assert(s@.subrange(k as int, n as int) =~= s@.skip(k as int));
        Some(s.substring_char(k, n))
    } else {
        None
    }
}

/// `s` without the suffix `p`, where it ends with it, else `s` itself.
pub fn trim_suffix<'a>(s: &'a str, p: &str) -> (r: &'a str)
    ensures
        r@ == without_suffix(s@, p@),
{
    let cs = chars(s);
    let ps = chars(p);
    if ps.len() > cs.len() {
        return s;
    }
    let cut: usize = cs.len() - ps.len();
    if stands_at(&cs, cut, &ps) {
        assert(p@ =~= s@.subrange(s@.len() - p@.len(), s@.len() as int)) by {
            let tail = s@.skip(cut as int);
            assert(p@ =~= tail.subrange(0, p@.len() as int));
            assert(tail.subrange(0, p@.len() as int) =~= tail);
            assert(tail =~= s@.subrange(s@.len() - p@.len(), s@.len() as int));
        }
        assert(s@.subrange(0, cut as int) =~= s@.take(cut as int));
        s.substring_char(0, cut)
    } else {
        assert(!p@.is_suffix_of(s@)) by {
            if p@.is_suffix_of(s@) {
                let tail = s@.skip(cut as int);
                assert(tail =~= s@.subrange(s@.len() - p@.len(), s@.len() as int));
                assert(tail.subrange(0, p@.len() as int) =~= tail);
            }
        }
        s
    }
}

/// Index of the first occurrence of `p` in `s`.
pub fn find_str(s: &str, p: &str) -> (r: Option<usize>)
    ensures
        match (r, occurrence(s@, p@)) {
            (Some(i), Some(j)) => i == j && i + p@.len() <= s@.len(),
            (None, None) => true,
            _ => false,
        },
{
    let cs = chars(s);
    let ps = chars(p);
    let n: usize = cs.len();
    let mut i: usize = 0;
    assert(s@.skip(0) =~= s@);
    loop
        invariant
            i <= n,
            n == cs.len(),
            cs@ == s@,
            ps@ == p@,
            occurrence(s@, p@) == match occurrence(s@.skip(i as int), p@) {
                Some(j) => Some(j + i),
                None => None,
            },
        decreases n - i,
    {
        if stands_at(&cs, i, &ps) {
            return Some(i);
        }
        if i == n {
            return None;
        }
        assert(s@.skip(i as int).drop_first() =~= s@.skip(i + 1));
        i = i + 1;
    }
}

/// What stands before and after the first occurrence of `p`.
pub fn split_once_str<'a>(s: &'a str, p: &str) -> (r: Option<(&'a str, &'a str)>)
    ensures
        match (r, occurrence(s@, p@)) {
            (Some(q), Some(i)) => q.0@ == s@.take(i) && q.1@ == s@.skip(i + p@.len()),
            (None, None) => true,
            _ => false,
        },
{
    match find_str(s, p) {
        Some(i) => {
            let k: usize = p.unicode_len();
            let n: usize = s.unicode_len();
            assert(s@.subrange(0, i as int) =~= s@.take(i as int));
            assert(s@.subrange(i + k, n as int) =~= s@.skip(i + k));
            Some((s.substring_char(0, i), s.substring_char(i + k, n)))
        },
        None => None,
    }
}

/// The lines of `s`.
pub fn lines<'a>(s: &'a str) -> (r: Vec<&'a str>)
    ensures
        slices(r@) == lines_of(s@),
{
    let cs = chars(s);
    let n: usize = cs.len();
    let mut out: Vec<&'a str> = Vec::new();
    let mut at: usize = 0;
    assert(s@.skip(0) =~= s@);
    assert(slices(out@) + lines_of(s@) =~= lines_of(s@));
    while at < n
        invariant
            at <= n,
            n == cs.len(),
            cs@ == s@,
            lines_of(s@) == slices(out@) + lines_of(s@.skip(at as int)),
        decreases n - at,
    {
        let j: usize = find_from(&cs, at, '\n');
        let ghost rest = s@.skip(at as int);
        let ghost before = slices(out@);
        if j == n {
            assert(s@.subrange(at as int, n as int) =~= rest);
            let line = s.substring_char(at, n);
            out.push(line);
            assert(slices(out@) =~= before.push(rest));
            assert(lines_of(s@.skip(n as int)) =~= seq![]);
            assert(slices(out@) + lines_of(s@.skip(n as int)) =~= before + lines_of(rest));
            at = n;
        } else {
            let end: usize = if j > at && cs[j - 1] == '\r' {
                j - 1
            } else {
                j
            };
            assert(rest.take(j - at) =~= s@.subrange(at as int, j as int));
            assert(s@.subrange(at as int, end as int) =~= without_cr(rest.take(j - at)));
            let line = s.substring_char(at, end);
            out.push(line);
            assert(rest.skip(j - at + 1) =~= s@.skip(j + 1));
            assert(slices(out@) =~= before.push(without_cr(rest.take(j - at))));
            assert(slices(out@) + lines_of(s@.skip(j + 1)) =~= before + lines_of(rest));
            at = j + 1;
        }
    }
    assert(lines_of(s@.skip(n as int)) =~= seq![]);
    assert(slices(out@) =~= lines_of(s@));
    out
}

/// The pieces of `s` between occurrences of `c`.
pub fn split<'a>(s: &'a str, c: char) -> (r: Vec<&'a str>)
    ensures
        slices(r@) == pieces(s@, c),
{
    let cs = chars(s);
    let n: usize = cs.len();
    let mut out: Vec<&'a str> = Vec::new();
    let mut at: usize = 0;
    assert(s@.skip(0) =~= s@);
    assert(slices(out@) + pieces(s@, c) =~= pieces(s@, c));
    loop
        invariant
            at <= n,
            n == cs.len(),
            cs@ == s@,
            pieces(s@, c) == slices(out@) + pieces(s@.skip(at as int), c),
        decreases n - at,
    {
        let j: usize = find_from(&cs, at, c);
        let ghost rest = s@.skip(at as int);
        let ghost before = slices(out@);
        assert(rest.take(j - at) =~= s@.subrange(at as int, j as int));
        let piece = s.substring_char(at, j);
        out.push(piece);
        assert(slices(out@) =~= before.push(rest.take(j - at)));
        if j == n {
            assert(rest.take(j - at) =~= rest);
            assert(slices(out@) =~= pieces(s@, c));
            return out;
        }
        assert(rest.skip(j - at + 1) =~= s@.skip(j + 1));
        assert(slices(out@) + pieces(s@.skip(j + 1), c) =~= before + pieces(rest, c));
        at = j + 1;
    }
}

/// The parts, with `sep` between each two.
pub fn join(parts: &Vec<String>, sep: &str) -> (r: String)
    ensures
        r@ == joined(texts(parts@), sep@),
{
    let mut out = String::new();
    let mut i: usize = 0;
    while i < parts.len()
        invariant
            i <= parts.len(),
            out@ == joined(texts(parts@).take(i as int), sep@),
        decreases parts.len() - i,
    {
        let ghost upto = texts(parts@).take(i + 1);
        assert(upto.drop_last() =~= texts(parts@).take(i as int));
        assert(upto.last() == parts@[i as int]@);
        if i > 0 {
            out.append(sep);
        }
        out.append(parts[i].as_str());
        assert(out@ =~= joined(upto, sep@));
        i = i + 1;
    }
    assert(texts(parts@).take(i as int) =~= texts(parts@));
    out
}

/// Whether `a` comes before `b` or equals it, by code point.
pub fn in_order(a: &str, b: &str) -> (r: bool)
    ensures
        r == ordered(a@, b@),
{
    let x = chars(a);
    let y = chars(b);
    let mut i: usize = 0;
    assert(a@.skip(0) =~= a@);
    assert(b@.skip(0) =~= b@);
    while i < x.len()
        invariant
            i <= x.len(),
            i <= y.len(),
            x@ == a@,
            y@ == b@,
            ordered(a@, b@) == ordered(a@.skip(i as int), b@.skip(i as int)),
        decreases x.len() - i,
    {
        if i >= y.len() {
            return false;
        }
        if x[i] != y[i] {
            return x[i] < y[i];
        }
        assert(a@.skip(i as int).drop_first() =~= a@.skip(i + 1));
        assert(b@.skip(i as int).drop_first() =~= b@.skip(i + 1));
        i = i + 1;
    }
    true
}

/// The text of one decimal digit.
fn digit_text(d: u64) -> (r: &'static str)
    requires
        d < 10,
    ensures
        r@ == seq![digit(d as nat)],
{
    proof {
        reveal_strlit("0");
        reveal_strlit("1");
        reveal_strlit("2");
        reveal_strlit("3");
        reveal_strlit("4");
        reveal_strlit("5");
        reveal_strlit("6");
        reveal_strlit("7");
        reveal_strlit("8");
        reveal_strlit("9");
    }
    let r = match d {
        0 => "0",
        1 => "1",
        2 => "2",
        3 => "3",
        4 => "4",
        5 => "5",
        6 => "6",
        7 => "7",
        8 => "8",
        _ => "9",
    };
    assert(r@ =~= seq![digit(d as nat)]);
    r
}

/// `n` in decimal.
pub fn to_decimal(n: u64) -> (r: String)
    ensures
        r@ == decimal(n as nat),
    decreases n,
{
    if n < 10 {
        own(digit_text(n))
    } else {
        let mut s = to_decimal(n / 10);
        s.append(digit_text(n % 10));
        assert(s@ =~= decimal(n as nat));
        s
    }
}

/// The `u32` that `s` writes.
pub fn parse_u32(s: &str) -> (r: Result<u32, IntError>)
    ensures
        match (r, number(s@)) {
            (Ok(n), Ok(m)) => n == m,
            (Err(e), Err(f)) => e == f,
            _ => false,
        },
{
    let cs = chars(s);
    let n: usize = cs.len();
    if n == 0 {
        return Err(IntError::Empty);
    }
    let start: usize = if cs[0] == '+' && n > 1 {
        1
    } else {
        0
    };
    let mut acc: u64 = 0;
    let mut i: usize = start;
    assert(s@.skip(0) =~= s@);
    assert(s@.skip(1) =~= s@.drop_first());
    while i < n
        invariant
            i <= n,
            n == cs.len(),
            cs@ == s@,
            acc <= u32::MAX,
            number(s@) == digits_value(s@.skip(i as int), acc as nat),
        decreases n - i,
    {
        let c = cs[i];
        if !('0' <= c && c <= '9') {
            return Err(IntError::InvalidDigit);
        }
        let next: u64 = acc * 10 + (c as u32 - '0' as u32) as u64;
        assert(s@.skip(i as int).drop_first() =~= s@.skip(i + 1));
        if next > u32::MAX as u64 {
            return Err(IntError::Overflow);
        }
        acc = next;
        i = i + 1;
    }
    Ok(acc as u32)
}

} // verus!
