//! Laws of what is printed, as it is called.
use crate::error::Error;
use crate::exit::ExitKind;
use crate::laws::output as output_laws;
use crate::output;
use crate::output::{Ending, Failure, Json, Outcome, Output};
use crate::text;
use vstd::prelude::*;

verus! {

/// The plain values.
pub proof fn plain_values_are_written(
    b: bool,
    n: u64,
    s: &str,
    k: Option<u32>,
    t: Option<&str>,
    null: Json,
    truth: Json,
    number: Json,
    quoted: Json,
    path: Json,
    opt_s: Json,
    opt_n: Json,
)
    requires
        call_ensures(Json::null, (), null),
        call_ensures(Json::boolean, (b,), truth),
        call_ensures(Json::number, (n,), number),
        call_ensures(Json::string, (s,), quoted),
        call_ensures(output::path, (s,), path),
        call_ensures(output::opt_str, (t,), opt_s),
        call_ensures(output::opt_num, (k,), opt_n),
    ensures
        null@ == "null"@,
        b ==> truth@ == "true"@,
        !b ==> truth@ == "false"@,
        number@ == text::decimal(n as nat),
        quoted@ == output::json_quote(s@),
        path@ == output::json_quote(s@),
        t matches Some(x) ==> opt_s@ == output::json_quote(x@),
        t is None ==> opt_s@ == "null"@,
        k matches Some(x) ==> opt_n@ == text::decimal(x as nat),
        k is None ==> opt_n@ == "null"@,
{
}

/// Different texts are written differently.
pub proof fn written_texts_can_be_told_apart(a: &str, b: &str, x: Json, y: Json)
    requires
        call_ensures(Json::string, (a,), x),
        call_ensures(Json::string, (b,), y),
        x@ == y@,
    ensures
        a@ == b@,
{
    output_laws::quoting_tells_texts_apart(a@, b@);
}

/// Arrays hold their items in order between commas; so do the lines of a text, each quoted and
/// the empty ones left out. What is rendered is what was made, on one line.
pub proof fn arrays_are_written(items: Vec<Json>, array: Json, s: &str, lines: Json, shown: String)
    requires
        call_ensures(Json::array, (items,), array),
        call_ensures(output::lines, (s,), lines),
        call_ensures(Json::render, (&array,), shown),
    ensures
        items@.len() == 0 ==> array@ == "["@ + "]"@,
        items@.len() == 1 ==> array@ == "["@ + items@[0]@ + "]"@,
        items@.len() == 2 ==> array@ == "["@ + items@[0]@ + ","@ + items@[1]@ + "]"@,
        lines@ == "["@ + text::joined(
            text::lines_of(s@).filter(|l: Seq<char>| l.len() > 0).map_values(
                |l: Seq<char>| output::json_quote(l),
            ),
            ","@,
        ) + "]"@,
        shown@ == array@,
{
    output_laws::lines_are_quoted_one_by_one(text::lines_of(s@));
    let views = output::json_texts(items@);
    assert(views.len() == items@.len());
    let none = Seq::<Seq<char>>::empty();
    crate::laws::text::joining_separates(Seq::empty(), none, ","@);
    if items@.len() == 0 {
        assert(views =~= none);
        assert(text::joined(views, ","@) =~= Seq::empty());
        assert("["@ + Seq::<char>::empty() + "]"@ =~= "["@ + "]"@);
    }
    if items@.len() >= 1 {
        assert(views[0] == items@[0]@);
        crate::laws::text::joining_separates(views[0], views.drop_first(), ","@);
    }
    if items@.len() == 1 {
        assert(views =~= seq![views[0]]);
    }
    if items@.len() == 2 {
        assert(views[1] == items@[1]@);
        assert(views =~= seq![views[0]] + views.drop_first());
        assert(views.drop_first() =~= seq![views[1]]);
        crate::laws::text::joining_separates(views[1], none, ","@);
        assert("["@ + (views[0] + ","@ + views[1]) + "]"@ =~= "["@ + views[0] + ","@ + views[1] + "]"@);
    }
}

/// The outcomes are what they are named.
pub proof fn outcomes_are(
    s: String,
    j: Json,
    e: Error,
    code: i32,
    none: Outcome,
    line: Outcome,
    json: Outcome,
    failing: Outcome,
    silent: Outcome,
)
    requires
        call_ensures(Outcome::none, (), none),
        call_ensures(Outcome::line, (s,), line),
        call_ensures(Outcome::json, (j,), json),
        call_ensures(Outcome::json_failing, (j, e), failing),
        call_ensures(Outcome::silent_exit, (code,), silent),
    ensures
        none.output is Empty && none.failure is None,
        line.output == Output::Line(s) && line.failure is None,
        json.output == Output::Json(j) && json.failure is None,
        failing.output == Output::Json(j) && failing.failure == Some(Failure::Reported(e)),
        silent.output is Empty && silent.failure == Some(Failure::Silent(code)),
{
}

/// How the process ends: what it prints, what it tells, and its exit code.
pub proof fn the_process_ends(r: Result<Outcome, Error>, e: Ending)
    requires
        call_ensures(output::settle, (r,), e),
    ensures
        r matches Err(x) ==> e.stdout is None && (e.stderr matches Some(m) && m@ == "error: "@
            + x.message@) && (x.kind is None ==> e.code == 1) && (x.kind == Some(ExitKind::Contended)
            ==> e.code == 3) && (x.kind == Some(ExitKind::Capacity) ==> e.code == 4) && (x.kind
            == Some(ExitKind::LeaseHeld) ==> e.code == 6),
        r matches Ok(o) ==> {
            &&& o.output is Empty ==> e.stdout is None
            &&& o.output matches Output::Line(s) ==> (e.stdout matches Some(t) && t@ == s@)
            &&& o.output matches Output::Json(j) ==> (e.stdout matches Some(t) && t@ == j@)
            &&& o.failure is None ==> e.code == 0 && e.stderr is None
            &&& o.failure matches Some(Failure::Silent(c)) ==> e.code == c && e.stderr is None
            &&& o.failure matches Some(Failure::Reported(x)) ==> (e.stderr matches Some(m) && m@
                == "error: "@ + x.message@) && (x.kind is None ==> e.code == 1)
        },
{
}

/// An object holds its fields in order between commas, each name quoted.
pub proof fn objects_are_written(fields: Vec<(&str, Json)>, object: Json)
    requires
        call_ensures(Json::object, (fields,), object),
    ensures
        fields@.len() == 1 ==> object@ == "{"@ + output::json_quote(fields@[0].0@) + ":"@
            + fields@[0].1@ + "}"@,
        fields@.len() == 2 ==> object@ == "{"@ + output::json_quote(fields@[0].0@) + ":"@
            + fields@[0].1@ + ","@ + output::json_quote(fields@[1].0@) + ":"@ + fields@[1].1@ + "}"@,
{
    let views = output::field_views(fields@);
    assert(views.len() == fields@.len());
    let none = Seq::<(Seq<char>, Seq<char>)>::empty();
    if fields@.len() >= 1 {
        let (k, v) = views[0];
        assert(k == fields@[0].0@ && v == fields@[0].1@);
        output_laws::values_are_written(Seq::empty(), none, k, v, Seq::empty(), 0);
        assert(seq![(k, v)] =~= seq![views[0]]);
        if fields@.len() == 1 {
            assert(views =~= seq![(k, v)]);
        }
        if fields@.len() == 2 {
            let (l, w) = views[1];
            assert(l == fields@[1].0@ && w == fields@[1].1@);
            let one = seq![(k, v)];
            output_laws::values_are_written(Seq::empty(), one, l, w, Seq::empty(), 0);
            assert(views =~= one.push((l, w)));
            reveal_strlit("}");
            let front = "{"@ + output::json_quote(k) + ":"@ + v;
            assert(output::object_text(one).drop_last() =~= front);
        }
    }
}

} // verus!
