//! The stdout contract. Subcommands build an [`Outcome`] and return it; the program
//! prints it in one place, which also decides the exit code.
use crate::error;
use crate::error::Error;
use crate::text;
use crate::text_lemmas;
use vstd::prelude::*;

verus! {

// ---------------------------------------------------------------------------
// JSON
// ---------------------------------------------------------------------------

/// A hexadecimal digit below 16.
pub open spec fn hex_digit(d: u32) -> char {
    if d < 10 {
        ('0' as u32 + d) as char
    } else {
        ('a' as u32 + d - 10) as char
    }
}

/// How a JSON string holds a character: quotes, backslashes and control characters are
/// escaped, the others stand as they are.
pub open spec fn json_char(c: char) -> Seq<char> {
    let u = c as u32;
    if c == '"' || c == '\\' {
        seq!['\\', c]
    } else if u == 0x8 {
        seq!['\\', 'b']
    } else if u == 0x9 {
        seq!['\\', 't']
    } else if u == 0xa {
        seq!['\\', 'n']
    } else if u == 0xc {
        seq!['\\', 'f']
    } else if u == 0xd {
        seq!['\\', 'r']
    } else if u < 0x20 {
        seq!['\\', 'u', '0', '0', hex_digit(u / 16), hex_digit(u % 16)]
    } else {
        seq![c]
    }
}

/// The characters of a text as a JSON string holds them.
pub open spec fn json_chars(s: Seq<char>) -> Seq<char>
    decreases s.len(),
{
    if s.len() == 0 {
        seq![]
    } else {
        json_chars(s.drop_last()) + json_char(s.last())
    }
}

/// A text as a JSON string.
pub open spec fn json_quote(s: Seq<char>) -> Seq<char> {
    seq!['"'] + json_chars(s) + seq!['"']
}

/// `serde_json::to_string` of a string slice: the text in double quotes, with quotes,
/// backslashes and control characters escaped, the last as the short escapes where there
/// is one, else by a lowercase hexadecimal code. Serializing a string slice into memory
/// does not fail.
#[verifier::external_body]
fn quote(s: &str) -> (r: String)
    ensures
        r@ == json_quote(s@),
{
    serde_json::to_string(s).expect("a string serializes")
}

proof fn lemma_quote_one_line(s: Seq<char>)
    ensures
        text_lemmas::lacks(json_quote(s), '\n'),
{
    lemma_chars_one_line(s);
}

proof fn lemma_chars_one_line(s: Seq<char>)
    ensures
        text_lemmas::lacks(json_chars(s), '\n'),
    decreases s.len(),
{
    if s.len() > 0 {
        lemma_chars_one_line(s.drop_last());
    }
}

/// An array in compact form.
pub open spec fn array_text(items: Seq<Seq<char>>) -> Seq<char> {
    "["@ + text::joined(items, ","@) + "]"@
}

/// An object in compact form.
pub open spec fn object_text(fields: Seq<(Seq<char>, Seq<char>)>) -> Seq<char> {
    "{"@ + text::joined(field_texts(fields), ","@) + "}"@
}

/// The fields of an object in compact form.
pub open spec fn field_texts(fields: Seq<(Seq<char>, Seq<char>)>) -> Seq<Seq<char>> {
    fields.map_values(|f: (Seq<char>, Seq<char>)| json_quote(f.0) + ":"@ + f.1)
}

/// A string in compact form, or `null`.
pub open spec fn opt_text(s: Option<Seq<char>>) -> Seq<char> {
    match s {
        Some(t) => json_quote(t),
        None => "null"@,
    }
}

/// A boolean in compact form.
pub open spec fn bool_text(b: bool) -> Seq<char> {
    if b {
        "true"@
    } else {
        "false"@
    }
}

/// A number in compact form, or `null`.
pub open spec fn opt_number(n: Option<u32>) -> Seq<char> {
    match n {
        Some(k) => text::decimal(k as nat),
        None => "null"@,
    }
}

/// A JSON value, kept as its compact text: one line, no spaces between tokens. Its
/// view is that text.
#[derive(Debug)]
pub struct Json {
    text: String,
}

impl View for Json {
    type V = Seq<char>;

    closed spec fn view(&self) -> Seq<char> {
        self.text@
    }
}

/// Values as their texts.
pub open spec fn json_texts(v: Seq<Json>) -> Seq<Seq<char>> {
    v.map_values(|j: Json| j@)
}

/// Fields as their texts.
pub open spec fn field_views(v: Seq<(&str, Json)>) -> Seq<(Seq<char>, Seq<char>)> {
    v.map_values(|f: (&str, Json)| (f.0@, f.1@))
}

proof fn lemma_joined_one_line(parts: Seq<Seq<char>>, sep: Seq<char>)
    requires
        forall|i: int| 0 <= i < parts.len() ==> text_lemmas::lacks(#[trigger] parts[i], '\n'),
        text_lemmas::lacks(sep, '\n'),
    ensures
        text_lemmas::lacks(text::joined(parts, sep), '\n'),
    decreases parts.len(),
{
    if parts.len() > 1 {
        let front = parts.drop_last();
        assert forall|i: int| 0 <= i < front.len() implies text_lemmas::lacks(
            #[trigger] front[i],
            '\n',
        ) by {
            assert(front[i] == parts[i]);
        }
        lemma_joined_one_line(front, sep);
        assert(parts.last() == parts[parts.len() - 1]);
    } else if parts.len() == 1 {
        assert(text_lemmas::lacks(parts[0], '\n'));
    }
}

impl Json {
    #[verifier::type_invariant]
    spec fn one_line(self) -> bool {
        text_lemmas::lacks(self.text@, '\n')
    }

    /// `null`.
    pub fn null() -> (r: Json)
        ensures
            r@ == "null"@,
    {
        proof {
            reveal_strlit("null");
        }
        Json { text: text::own("null") }
    }

    /// `true` or `false`.
    pub fn boolean(b: bool) -> (r: Json)
        ensures
            r@ == bool_text(b),
    {
        proof {
            reveal_strlit("true");
            reveal_strlit("false");
        }
        if b {
            Json { text: text::own("true") }
        } else {
            Json { text: text::own("false") }
        }
    }

    /// A number.
    pub fn number(n: u64) -> (r: Json)
        ensures
            r@ == text::decimal(n as nat),
    {
        proof {
            text_lemmas::lemma_decimal_digits(n as nat);
            let d = text::decimal(n as nat);
            assert forall|i: int| 0 <= i < d.len() implies d[i] != '\n' by {
                assert(text::is_digit(d[i]));
            }
        }
        Json { text: text::to_decimal(n) }
    }

    /// A string.
    pub fn string(s: &str) -> (r: Json)
        ensures
            r@ == json_quote(s@),
    {
        proof {
            lemma_quote_one_line(s@);
        }
        Json { text: quote(s) }
    }

    /// An array of values.
    pub fn array(items: Vec<Json>) -> (r: Json)
        ensures
            r@ == array_text(json_texts(items@)),
    {
        let mut parts: Vec<String> = Vec::new();
        let mut i: usize = 0;
        assert(text::texts(parts@) =~= json_texts(items@).take(0));
        while i < items.len()
            invariant
                i <= items.len(),
                text::texts(parts@) == json_texts(items@).take(i as int),
                forall|k: int|
                    0 <= k < i ==> text_lemmas::lacks(#[trigger] text::texts(parts@)[k], '\n'),
            decreases items.len() - i,
        {
            let ghost before = text::texts(parts@);
            let item = &items[i];
            proof {
                use_type_invariant(item);
            }
            parts.push(text::own(item.text.as_str()));
            assert(text::texts(parts@) =~= before.push(items@[i as int]@));
            assert(json_texts(items@).take(i + 1) =~= json_texts(items@).take(i as int).push(
                items@[i as int]@,
            ));
            i = i + 1;
        }
        assert(json_texts(items@).take(i as int) =~= json_texts(items@));
        let mut out = text::own("[");
        out.append(text::join(&parts, ",").as_str());
        out.append("]");
        proof {
            reveal_strlit("[");
            reveal_strlit(",");
            reveal_strlit("]");
            lemma_joined_one_line(text::texts(parts@), ","@);
        }
        Json { text: out }
    }

    /// An object with these fields, in this order. A reader of the text takes them in
    /// any order; writers keep them sorted by key.
    pub fn object(fields: Vec<(&str, Json)>) -> (r: Json)
        ensures
            r@ == object_text(field_views(fields@)),
    {
        let mut parts: Vec<String> = Vec::new();
        let ghost want = field_texts(field_views(fields@));
        let mut i: usize = 0;
        assert(text::texts(parts@) =~= want.take(0));
        while i < fields.len()
            invariant
                i <= fields.len(),
                want == field_texts(field_views(fields@)),
                text::texts(parts@) == want.take(i as int),
                forall|k: int|
                    0 <= k < i ==> text_lemmas::lacks(#[trigger] text::texts(parts@)[k], '\n'),
            decreases fields.len() - i,
        {
            let ghost before = text::texts(parts@);
            let value = &fields[i].1;
            proof {
                reveal_strlit(":");
                use_type_invariant(value);
            }
            let mut part = quote(fields[i].0);
            proof {
                lemma_quote_one_line(fields@[i as int].0@);
            }
            part.append(":");
            part.append(value.text.as_str());
            assert(part@ == want[i as int]);
            assert(text_lemmas::lacks(part@, '\n'));
            parts.push(part);
            assert(text::texts(parts@) =~= before.push(want[i as int]));
            assert(want.take(i + 1) =~= want.take(i as int).push(want[i as int]));
            i = i + 1;
        }
        assert(want.take(i as int) =~= want);
        let mut out = text::own("{");
        out.append(text::join(&parts, ",").as_str());
        out.append("}");
        proof {
            reveal_strlit("{");
            reveal_strlit(",");
            reveal_strlit("}");
            lemma_joined_one_line(text::texts(parts@), ","@);
        }
        Json { text: out }
    }

    /// The compact text: one line.
    pub fn render(&self) -> (r: String)
        ensures
            r@ == self@,
            text_lemmas::lacks(r@, '\n'),
    {
        proof {
            use_type_invariant(self);
        }
        text::own(self.text.as_str())
    }
}

/// A path as a JSON string.
pub fn path(p: &str) -> (r: Json)
    ensures
        r@ == json_quote(p@),
{
    Json::string(p)
}

/// `None` becomes `null`. Absent data is null, never a placeholder string.
pub fn opt_str(s: Option<&str>) -> (r: Json)
    ensures
        r@ == opt_text(text::opt_slice(s)),
{
    match s {
        Some(t) => Json::string(t),
        None => Json::null(),
    }
}

/// A number, or `null`.
pub fn opt_num(n: Option<u32>) -> (r: Json)
    ensures
        r@ == opt_number(n),
{
    match n {
        Some(k) => Json::number(k as u64),
        None => Json::null(),
    }
}

/// The lines that are not empty, each quoted.
pub open spec fn quoted_lines(lines: Seq<Seq<char>>) -> Seq<Seq<char>>
    decreases lines.len(),
{
    if lines.len() == 0 {
        seq![]
    } else if lines.last().len() == 0 {
        quoted_lines(lines.drop_last())
    } else {
        quoted_lines(lines.drop_last()).push(json_quote(lines.last()))
    }
}

/// The non-empty lines of a text as a JSON array, for git's own multi-line output.
pub fn lines(s: &str) -> (r: Json)
    ensures
        r@ == array_text(quoted_lines(text::lines_of(s@))),
{
    let all = text::lines(s);
    let ghost want = text::lines_of(s@);
    let mut items: Vec<Json> = Vec::new();
    let mut i: usize = 0;
    assert(all@.len() == text::slices(all@).len());
    assert(json_texts(items@) =~= quoted_lines(want.take(0)));
    while i < all.len()
        invariant
            i <= all.len(),
            text::slices(all@) == want,
            json_texts(items@) == quoted_lines(want.take(i as int)),
        decreases all.len() - i,
    {
        let ghost before = json_texts(items@);
        assert(want.take(i + 1).drop_last() =~= want.take(i as int));
        assert(want.take(i + 1).last() == all@[i as int]@) by {
            assert(text::slices(all@)[i as int] == all@[i as int]@);
        }
        if !all[i].is_empty() {
            let j = Json::string(all[i]);
            let ghost v = j@;
            items.push(j);
            assert(json_texts(items@) =~= before.push(v));
        }
        i = i + 1;
    }
    assert(want.take(i as int) =~= want);
    Json::array(items)
}

// ---------------------------------------------------------------------------
// Outcomes
// ---------------------------------------------------------------------------

/// A subcommand's stdout payload.
#[derive(Debug)]
pub enum Output {
    /// Stdout stays empty; the verb reports progress on stderr only.
    Empty,
    /// Exactly one bare line. Reserved for slot paths, which callers consume without
    /// a JSON parser in the loop.
    Line(String),
    /// A structured report: compact JSON, one line.
    Json(Json),
}

/// Nonzero exit despite a well-formed run.
#[derive(Debug)]
pub enum Failure {
    /// Exit code only, no stderr: the code is the answer.
    Silent(i32),
    /// The message goes to stderr, and the code comes from its kind.
    Reported(Error),
}

/// Payload plus exit disposition. These are independent: a health check emits a full
/// report and exits nonzero when it contains problems.
#[derive(Debug)]
pub struct Outcome {
    pub output: Output,
    pub failure: Option<Failure>,
}

impl Outcome {
    /// Nothing on stdout.
    pub fn none() -> (r: Outcome)
        ensures
            r.output is Empty,
            r.failure is None,
    {
        Outcome { output: Output::Empty, failure: None }
    }

    /// One bare line on stdout.
    pub fn line(s: String) -> (r: Outcome)
        ensures
            r.output == Output::Line(s),
            r.failure is None,
    {
        Outcome { output: Output::Line(s), failure: None }
    }

    /// A report on stdout.
    pub fn json(v: Json) -> (r: Outcome)
        ensures
            r.output == Output::Json(v),
            r.failure is None,
    {
        Outcome { output: Output::Json(v), failure: None }
    }

    /// A report that also fails, e.g. a health check that found errors.
    pub fn json_failing(v: Json, e: Error) -> (r: Outcome)
        ensures
            r.output == Output::Json(v),
            r.failure == Some(Failure::Reported(e)),
    {
        Outcome { output: Output::Json(v), failure: Some(Failure::Reported(e)) }
    }

    /// An exit code, and nothing on stdout or stderr.
    pub fn silent_exit(code: i32) -> (r: Outcome)
        ensures
            r.output is Empty,
            r.failure == Some(Failure::Silent(code)),
    {
        Outcome { output: Output::Empty, failure: Some(Failure::Silent(code)) }
    }
}

impl From<Output> for Outcome {
    fn from(output: Output) -> (r: Outcome) {
        Outcome { output, failure: None }
    }
}

impl vstd::std_specs::convert::FromSpecImpl<Output> for Outcome {
    open spec fn obeys_from_spec() -> bool {
        true
    }

    open spec fn from_spec(output: Output) -> Outcome {
        Outcome { output, failure: None }
    }
}

/// What the process leaves: a line for stdout, a line for stderr, and its exit code.
#[derive(Debug)]
pub struct Ending {
    pub stdout: Option<String>,
    pub stderr: Option<String>,
    pub code: i32,
}

/// The stdout line of a payload.
pub open spec fn printed(o: Output) -> Option<Seq<char>> {
    match o {
        Output::Empty => None,
        Output::Line(s) => Some(s@),
        Output::Json(j) => Some(j@),
    }
}

/// The stderr line of a failure.
pub open spec fn complaint(message: Seq<char>) -> Seq<char> {
    "error: "@ + message
}

/// What a command's result makes of the process: a failed command prints its message
/// and nothing else; an outcome prints its payload whether or not it also fails.
pub open spec fn ends_with(r: Result<Outcome, Error>, e: Ending) -> bool {
    match r {
        Err(x) => text::opt_text(e.stdout) is None && text::opt_text(e.stderr) == Some(
            complaint(x.message@),
        ) && e.code == error::failure_code(x.kind),
        Ok(o) => text::opt_text(e.stdout) == printed(o.output) && match o.failure {
            None => e.stderr is None && e.code == 0,
            Some(Failure::Silent(c)) => e.stderr is None && e.code == c,
            Some(Failure::Reported(x)) => text::opt_text(e.stderr) == Some(
                complaint(x.message@),
            ) && e.code == error::failure_code(x.kind),
        },
    }
}

fn complain(e: &Error) -> (r: String)
    ensures
        r@ == complaint(e.message@),
{
    let mut m = text::own("error: ");
    m.append(e.message.as_str());
    m
}

/// What a command's result makes of the process.
pub fn settle(result: Result<Outcome, Error>) -> (r: Ending)
    ensures
        ends_with(result, r),
        result matches Ok(o) && o.output is Json ==> (r.stdout matches Some(s)
            && text_lemmas::lacks(s@, '\n')),
{
    match result {
        Err(e) => Ending { stdout: None, stderr: Some(complain(&e)), code: e.code() },
        Ok(o) => {
            let stdout = match o.output {
                Output::Empty => None,
                Output::Line(s) => Some(s),
                Output::Json(j) => Some(j.render()),
            };
            match o.failure {
                None => Ending { stdout, stderr: None, code: 0 },
                Some(Failure::Silent(c)) => Ending { stdout, stderr: None, code: c },
                Some(Failure::Reported(e)) => Ending {
                    stdout,
                    stderr: Some(complain(&e)),
                    code: e.code(),
                },
            }
        },
    }
}

// ---------------------------------------------------------------------------
// Laws
// ---------------------------------------------------------------------------

/// A report survives the failure that comes with it: what is printed does not depend
/// on whether the outcome fails.
pub proof fn report_survives_failure(
    output: Output,
    failure: Option<Failure>,
    e: Ending,
    quiet: Ending,
)
    requires
        ends_with(Ok(Outcome { output, failure }), e),
        ends_with(Ok(Outcome { output, failure: None }), quiet),
    ensures
        text::opt_text(e.stdout) == text::opt_text(quiet.stdout),
{
}

/// A silent exit leaves stdout and stderr empty.
pub proof fn silent_exit_is_silent(code: i32, e: Ending)
    requires
        ends_with(
            Ok(Outcome { output: Output::Empty, failure: Some(Failure::Silent(code)) }),
            e,
        ),
    ensures
        e.stdout is None,
        e.stderr is None,
        e.code == code,
{
}

} // verus!
