//! What is known about one episode: its key and the ratings that the
//! experimenter gave while recording it. A `SurfaceData` is read from the
//! states of a recorded session or from the fields of a submitted form.

use vstd::prelude::*;

use crate::errors::ErrorKind;
use crate::structs::{
    datestamp_of, flow_type_of, likert_of, rating_views, Datestamp, EpisodeKey, FlowType, Likert,
    Rating,
};
use crate::text::{
    chars_of, has_prefix, number_of, read_number, same_str, split, split_on, starts_with,
    string_of, views,
};

verus! {

/// An episode and its ratings.
#[derive(Clone, PartialEq, Eq, Debug)]
pub struct SurfaceData {
    /// Episode date.
    pub date: Datestamp,
    /// Episode flow type.
    pub flow: FlowType,
    /// Episode number.
    pub num: u32,
    /// Ratings, in the order in which they were given. When a name occurs
    /// more than once, the last entry counts.
    pub ratings: Vec<Rating>,
}

/// The mathematical content of a `SurfaceData`.
pub struct Surface {
    /// Which episode it is.
    pub key: EpisodeKey,
    /// Names and answers, in order.
    pub ratings: Seq<(Seq<char>, u8)>,
}

impl View for SurfaceData {
    type V = Surface;

    open spec fn view(&self) -> Surface {
        Surface { key: (self.date, self.flow, self.num), ratings: rating_views(self.ratings@) }
    }
}

/// The answer recorded under `name`: that of the last entry of that name.
pub open spec fn answer_in(ratings: Seq<(Seq<char>, u8)>, name: Seq<char>) -> Option<u8>
    decreases ratings.len(),
{
    if ratings.len() == 0 {
        None
    } else if ratings.last().0 == name {
        Some(ratings.last().1)
    } else {
        answer_in(ratings.drop_last(), name)
    }
}

/// An answer that is recorded under a name is the answer of some entry of
/// that name, and a name without an answer has no entry.
pub proof fn lemma_answer_in(ratings: Seq<(Seq<char>, u8)>, name: Seq<char>)
    ensures
        match answer_in(ratings, name) {
            Some(answer) => ratings.contains((name, answer)),
            None => forall|i: int| 0 <= i < ratings.len() ==> (#[trigger] ratings[i]).0 != name,
        },
    decreases ratings.len(),
{
    if ratings.len() > 0 {
        if ratings.last().0 == name {
            assert(ratings[ratings.len() - 1] == (name, ratings.last().1));
        } else {
            lemma_answer_in(ratings.drop_last(), name);
            match answer_in(ratings, name) {
                Some(answer) => {
                    let i = choose|i: int|
                        0 <= i < ratings.drop_last().len() && ratings.drop_last()[i] == (
                            name,
                            answer,
                        );
                    assert(ratings[i] == (name, answer));
                },
                None => {
                    assert forall|i: int| 0 <= i < ratings.len() implies (
                    #[trigger] ratings[i]).0 != name by {
                        if i < ratings.len() - 1 {
                            assert(ratings.drop_last()[i] == ratings[i]);
                        }
                    }
                },
            }
        }
    }
}

impl SurfaceData {
    /// The key of the episode.
    pub fn key(&self) -> (key: EpisodeKey)
        ensures
            key == self@.key,
    {
        (self.date, self.flow, self.num)
    }

    /// The answer recorded under `name`, if there is one.
    pub fn rating(&self, name: &str) -> (r: Option<Likert>)
        ensures
            r == match answer_in(self@.ratings, name@) {
                Some(answer) => Some(Likert(answer)),
                None => None,
            },
    {
        let ghost all = self@.ratings;
        let mut i: usize = self.ratings.len();
        assert(all.take(i as int) =~= all);
        while i > 0
            invariant
                i <= self.ratings.len(),
                all == self@.ratings,
                answer_in(all, name@) == answer_in(all.take(i as int), name@),
            decreases i,
        {
            i -= 1;
            let entry: &Rating = &self.ratings[i];
            let ghost upto = all.take(i + 1);
            assert(upto.last() == entry@);
            assert(upto.drop_last() =~= all.take(i as int));
            if same_str(entry.short.as_str(), name) {
                return Some(Likert(entry.answer));
            }
        }
        None
    }
}

// ---------------------------------------------------------------------------
// From the states of a recorded session
// ---------------------------------------------------------------------------

/// One command of a session script, as far as ratings are concerned.
#[derive(Clone, PartialEq, Eq, Debug)]
pub enum FlowCommand {
    /// A question that is answered by a number. `data` is the answer as it
    /// was recorded, if one was recorded: any number, on the scale or not.
    Int { prompt: String, data: Option<i64> },
    /// Any other command.
    Other,
}

/// One state of a recorded session: its name and its script.
#[derive(Clone, PartialEq, Eq, Debug)]
pub struct FlowState {
    /// The name of the state.
    pub name: String,
    /// The commands of the state, in order.
    pub script: Vec<FlowCommand>,
}

/// The short name in a prompt of the form `long/short/...`: its second piece
/// between slashes. `None` for a prompt without a slash.
pub open spec fn short_name(prompt: Seq<char>) -> Option<Seq<char>> {
    let pieces = split_on(prompt, '/');
    if pieces.len() >= 2 {
        Some(pieces[1])
    } else {
        None
    }
}

/// Whether an answer is on the scale of ratings, from 1 to 5.
pub open spec fn on_scale(answer: int) -> bool {
    1 <= answer <= 5
}

/// What a command adds to the ratings. An answered question adds its short
/// name and its answer; a command that is no question, or has no answer,
/// adds nothing. `Err` for an answered question whose answer is not on the
/// scale from 1 to 5 or whose prompt has no short name.
pub open spec fn command_rating(command: FlowCommand) -> Result<Option<(Seq<char>, u8)>, ()> {
    match command {
        FlowCommand::Int { prompt, data: Some(answer) } => if on_scale(answer as int) {
            match short_name(prompt@) {
                Some(short) => Ok(Some((short, answer as u8))),
                None => Err(()),
            }
        } else {
            Err(())
        },
        _ => Ok(None),
    }
}

/// The ratings of a script, in order. `None` when some answered question has
/// an answer off the scale or no short name.
pub open spec fn script_ratings(script: Seq<FlowCommand>) -> Option<Seq<(Seq<char>, u8)>>
    decreases script.len(),
{
    if script.len() == 0 {
        Some(Seq::empty())
    } else {
        match (script_ratings(script.drop_last()), command_rating(script.last())) {
            (Some(before), Ok(Some(rating))) => Some(before.push(rating)),
            (Some(before), Ok(None)) => Some(before),
            _ => None,
        }
    }
}

/// Whether a state is the one in which the experimenter rates the surface.
pub open spec fn is_wrap_up(state: FlowState) -> bool {
    starts_with(state.name@, "Wrap up"@)
}

/// The position of the first state whose name begins with `Wrap up`.
pub open spec fn first_wrap_up(states: Seq<FlowState>) -> Option<int>
    decreases states.len(),
{
    if states.len() == 0 {
        None
    } else {
        match first_wrap_up(states.drop_last()) {
            Some(i) => Some(i),
            None => if is_wrap_up(states.last()) {
                Some(states.len() - 1)
            } else {
                None
            },
        }
    }
}

/// The ratings of a recorded session: those of the script of its first
/// `Wrap up` state. `None` when there is no such state or its script has an
/// answered question whose answer is off the scale or whose prompt has no
/// short name.
pub open spec fn session_ratings(states: Seq<FlowState>) -> Option<Seq<(Seq<char>, u8)>> {
    match first_wrap_up(states) {
        Some(i) => script_ratings(states[i].script@),
        None => None,
    }
}

/// The first `Wrap up` state of a list is a `Wrap up` state, none stands
/// before it, and a list without one has none at all.
pub proof fn lemma_first_wrap_up(states: Seq<FlowState>)
    ensures
        match first_wrap_up(states) {
            Some(i) => 0 <= i < states.len() && is_wrap_up(states[i]) && forall|j: int|
                0 <= j < i ==> !is_wrap_up(#[trigger] states[j]),
            None => forall|j: int| 0 <= j < states.len() ==> !is_wrap_up(#[trigger] states[j]),
        },
    decreases states.len(),
{
    if states.len() > 0 {
        let init = states.drop_last();
        lemma_first_wrap_up(init);
        match first_wrap_up(init) {
            Some(i) => {
                assert(init[i] == states[i]);
                assert forall|j: int| 0 <= j < i implies !is_wrap_up(#[trigger] states[j]) by {
                    assert(init[j] == states[j]);
                }
            },
            None => {
                assert forall|j: int| 0 <= j < states.len() - 1 implies !is_wrap_up(
                    #[trigger] states[j],
                ) by {
                    assert(init[j] == states[j]);
                }
            },
        }
    }
}

/// A `Wrap up` state with none before it is the first one.
pub proof fn lemma_first_wrap_up_is(states: Seq<FlowState>, i: int)
    requires
        0 <= i < states.len(),
        is_wrap_up(states[i]),
        forall|j: int| 0 <= j < i ==> !is_wrap_up(#[trigger] states[j]),
    ensures
        first_wrap_up(states) == Some(i),
{
    lemma_first_wrap_up(states);
}

/// The short name in a prompt.
fn short_of(prompt: &str) -> (r: Option<String>)
    ensures
        match r {
            Some(short) => short_name(prompt@) == Some(short@),
            None => short_name(prompt@).is_none(),
        },
{
    let cs: Vec<char> = chars_of(prompt);
    let pieces: Vec<Vec<char>> = split(&cs, '/');
    if pieces.len() >= 2 {
        assert(views(pieces@)[1] == pieces@[1]@);
        Some(string_of(&pieces[1]))
    } else {
        None
    }
}

/// The ratings of a script.
fn ratings_of_script(script: &Vec<FlowCommand>) -> (r: Option<Vec<Rating>>)
    ensures
        match r {
            Some(ratings) => script_ratings(script@) == Some(rating_views(ratings@)),
            None => script_ratings(script@).is_none(),
        },
        r matches Some(ratings) ==> forall|i: int|
            0 <= i < ratings.len() ==> 1 <= (#[trigger] rating_views(ratings@)[i]).1 <= 5,
{
    let mut ratings: Vec<Rating> = Vec::new();
    let mut i: usize = 0;
    assert(script@.take(0) =~= Seq::<FlowCommand>::empty());
    assert(rating_views(ratings@) =~= Seq::<(Seq<char>, u8)>::empty());
    while i < script.len()
        invariant
            i <= script.len(),
            script_ratings(script@.take(i as int)) == Some(rating_views(ratings@)),
        decreases script.len() - i,
    {
        let ghost upto = script@.take(i + 1);
        let ghost before = rating_views(ratings@);
        assert(upto.drop_last() =~= script@.take(i as int));
        assert(upto.last() == script@[i as int]);
        match &script[i] {
            FlowCommand::Int { prompt, data: Some(answer) } => {
                if *answer < 1 || *answer > 5 {
                    proof {
                        lemma_script_ratings_fail(script@, i + 1);
                    }
                    return None;
                }
                match short_of(prompt.as_str()) {
                    Some(short) => {
                        let ghost added = (short@, *answer as u8);
                        ratings.push(Rating { short, answer: *answer as u8 });
                        assert(rating_views(ratings@) =~= before.push(added));
                    },
                    None => {
                        proof {
                            lemma_script_ratings_fail(script@, i + 1);
                        }
                        return None;
                    },
                }
            },
            _ => {},
        }
        i += 1;
    }
    assert(script@.take(script.len() as int) =~= script@);
    proof {
        lemma_script_ratings_on_scale(script@);
        let read = script_ratings(script@).unwrap();
        assert forall|i: int| 0 <= i < ratings.len() implies 1 <= (#[trigger] rating_views(
            ratings@,
        )[i]).1 <= 5 by {
            assert(on_scale(read[i].1 as int));
        }
    }
    Some(ratings)
}

/// Every rating of a script is on the scale from 1 to 5.
pub proof fn lemma_script_ratings_on_scale(script: Seq<FlowCommand>)
    ensures
        script_ratings(script) matches Some(ratings) ==> forall|i: int|
            0 <= i < ratings.len() ==> on_scale((#[trigger] ratings[i]).1 as int),
    decreases script.len(),
{
    if script.len() > 0 {
        lemma_script_ratings_on_scale(script.drop_last());
    }
}

/// A script has no ratings as soon as one of its prefixes has none.
proof fn lemma_script_ratings_fail(script: Seq<FlowCommand>, k: int)
    requires
        0 <= k <= script.len(),
        script_ratings(script.take(k)).is_none(),
    ensures
        script_ratings(script).is_none(),
    decreases script.len() - k,
{
    if k == script.len() {
        assert(script.take(k) =~= script);
    } else {
        assert(script.drop_last().take(k) =~= script.take(k));
        lemma_script_ratings_fail(script.drop_last(), k);
    }
}

impl SurfaceData {
    /// The episode `(date, flowname, num)` with the ratings of its recorded
    /// session, given by the states that the session file was parsed into.
    /// The ratings are those of the first state whose name begins with
    /// `Wrap up`, and each of them is on the scale from 1 to 5. Fails with
    /// `Parse` when there is no such state, and when an answered question of
    /// its script has an answer off the scale or a prompt without a short
    /// name.
    pub fn from_flow_file(
        date: Datestamp,
        flowname: FlowType,
        num: u32,
        states: &Vec<FlowState>,
    ) -> (r: Result<SurfaceData, ErrorKind>)
        ensures
            match r {
                Ok(surface) => session_ratings(states@) == Some(surface@.ratings) && surface@.key
                    == (date, flowname, num),
                Err(e) => e == ErrorKind::Parse && session_ratings(states@).is_none(),
            },
            r matches Ok(surface) ==> forall|i: int|
                0 <= i < surface@.ratings.len() ==> 1 <= (#[trigger] surface@.ratings[i]).1 <= 5,
    {
        let marker: Vec<char> = chars_of("Wrap up");
        let mut i: usize = 0;
        while i < states.len()
            invariant
                i <= states.len(),
                marker@ == "Wrap up"@,
                forall|j: int| 0 <= j < i ==> !is_wrap_up(#[trigger] states@[j]),
            decreases states.len() - i,
        {
            let name: Vec<char> = chars_of(states[i].name.as_str());
            if has_prefix(&name, &marker) {
                proof {
                    lemma_first_wrap_up_is(states@, i as int);
                }
                return match ratings_of_script(&states[i].script) {
                    Some(ratings) => Ok(SurfaceData { date, flow: flowname, num, ratings }),
                    None => Err(ErrorKind::Parse),
                };
            }
            i += 1;
        }
        proof {
            lemma_first_wrap_up(states@);
        }
        Err(ErrorKind::Parse)
    }
}

// ---------------------------------------------------------------------------
// From the fields of a submitted form
// ---------------------------------------------------------------------------

/// What has been read from a form so far.
pub struct FormFields {
    /// The value of the last `date` field.
    pub date: Option<Datestamp>,
    /// The value of the last `flow` field.
    pub flow: Option<FlowType>,
    /// The value of the last `num` field.
    pub num: Option<u32>,
    /// The ratings read, in order.
    pub ratings: Seq<(Seq<char>, u8)>,
}

/// The views of the fields of a form.
pub open spec fn field_views(items: Seq<(String, String)>) -> Seq<(Seq<char>, Seq<char>)> {
    Seq::new(items.len(), |i: int| (items[i].0@, items[i].1@))
}

/// Reads one field after `got`. The fields `date`, `flow` and `num` must
/// hold a date, a flow token and a number. A field of any other name is a
/// rating if its value is a number from 1 to 5; if it is not, a strict
/// reading fails and a lenient reading passes the field over. `None` stands
/// for failure.
pub open spec fn take_field(got: FormFields, name: Seq<char>, value: Seq<char>, strict: bool)
    -> Option<FormFields> {
    if name == "date"@ {
        match datestamp_of(value) {
            Some(date) => Some(FormFields { date: Some(date), ..got }),
            None => None,
        }
    } else if name == "flow"@ {
        match flow_type_of(value) {
            Some(flow) => Some(FormFields { flow: Some(flow), ..got }),
            None => None,
        }
    } else if name == "num"@ {
        match number_of(value) {
            Some(num) => Some(FormFields { num: Some(num), ..got }),
            None => None,
        }
    } else {
        match likert_of(value) {
            Some(answer) => Some(FormFields { ratings: got.ratings.push((name, answer.0)), ..got }),
            None => if strict {
                None
            } else {
                Some(got)
            },
        }
    }
}

/// Reads the fields of a form in order.
pub open spec fn take_fields(items: Seq<(Seq<char>, Seq<char>)>, strict: bool) -> Option<
    FormFields,
>
    decreases items.len(),
{
    if items.len() == 0 {
        Some(FormFields { date: None, flow: None, num: None, ratings: Seq::empty() })
    } else {
        match take_fields(items.drop_last(), strict) {
            Some(got) => take_field(got, items.last().0, items.last().1, strict),
            None => None,
        }
    }
}

/// The episode and ratings that a form holds: what its fields read as,
/// provided that a date, a flow type and a number are among them.
pub open spec fn form_surface(items: Seq<(Seq<char>, Seq<char>)>, strict: bool) -> Option<Surface> {
    match take_fields(items, strict) {
        Some(got) => if got.date.is_some() && got.flow.is_some() && got.num.is_some() {
            Some(
                Surface {
                    key: (got.date.unwrap(), got.flow.unwrap(), got.num.unwrap()),
                    ratings: got.ratings,
                },
            )
        } else {
            None
        },
        None => None,
    }
}

/// Whether a field can be read: a `date`, `flow` or `num` field must hold a
/// date, a flow token or a number, and in a strict reading every other
/// field must hold a rating.
pub open spec fn field_reads(name: Seq<char>, value: Seq<char>, strict: bool) -> bool {
    if name == "date"@ {
        datestamp_of(value).is_some()
    } else if name == "flow"@ {
        flow_type_of(value).is_some()
    } else if name == "num"@ {
        number_of(value).is_some()
    } else {
        !strict || likert_of(value).is_some()
    }
}

/// The value of the last field of the given name, if there is one.
pub open spec fn last_value(items: Seq<(Seq<char>, Seq<char>)>, name: Seq<char>) -> Option<
    Seq<char>,
>
    decreases items.len(),
{
    if items.len() == 0 {
        None
    } else if items.last().0 == name {
        Some(items.last().1)
    } else {
        last_value(items.drop_last(), name)
    }
}

/// What reading a form comes to. The form is read exactly if each of its
/// fields can be read. The date, the flow type and the number are then
/// those of the last `date`, `flow` and `num` field, and missing where
/// there is no such field.
pub proof fn lemma_take_fields(items: Seq<(Seq<char>, Seq<char>)>, strict: bool)
    ensures
        take_fields(items, strict).is_some() <==> forall|i: int|
            0 <= i < items.len() ==> field_reads((#[trigger] items[i]).0, items[i].1, strict),
        take_fields(items, strict) matches Some(got) ==> {
            &&& got.date == match last_value(items, "date"@) {
                Some(value) => datestamp_of(value),
                None => None,
            }
            &&& got.flow == match last_value(items, "flow"@) {
                Some(value) => flow_type_of(value),
                None => None,
            }
            &&& got.num == match last_value(items, "num"@) {
                Some(value) => number_of(value),
                None => None,
            }
        },
    decreases items.len(),
{
    reveal_strlit("date");
    reveal_strlit("flow");
    reveal_strlit("num");
    assert("date"@[0] != "flow"@[0]);
    assert("date"@.len() != "num"@.len());
    if items.len() > 0 {
        let init = items.drop_last();
        lemma_take_fields(init, strict);
        assert forall|i: int| 0 <= i < init.len() implies init[i] == items[i] by {}
        if take_fields(items, strict).is_some() {
            assert forall|i: int| 0 <= i < items.len() implies field_reads(
                (#[trigger] items[i]).0,
                items[i].1,
                strict,
            ) by {
                if i < init.len() {
                    assert(init[i] == items[i]);
                }
            }
        } else if take_fields(init, strict).is_some() {
            assert(!field_reads(items[items.len() - 1].0, items[items.len() - 1].1, strict));
        } else {
            let i = choose|i: int|
                0 <= i < init.len() && !field_reads((#[trigger] init[i]).0, init[i].1, strict);
            assert(!field_reads(items[i].0, items[i].1, strict));
        }
    }
}

/// Every rating that is read from a form is on the scale from 1 to 5.
pub proof fn lemma_form_ratings_on_scale(items: Seq<(Seq<char>, Seq<char>)>, strict: bool)
    ensures
        take_fields(items, strict) matches Some(got) ==> forall|i: int|
            0 <= i < got.ratings.len() ==> 1 <= (#[trigger] got.ratings[i]).1 <= 5,
    decreases items.len(),
{
    if items.len() > 0 {
        lemma_form_ratings_on_scale(items.drop_last(), strict);
    }
}

/// A form cannot be read as soon as one of its prefixes cannot.
proof fn lemma_take_fields_fail(items: Seq<(Seq<char>, Seq<char>)>, strict: bool, k: int)
    requires
        0 <= k <= items.len(),
        take_fields(items.take(k), strict).is_none(),
    ensures
        take_fields(items, strict).is_none(),
    decreases items.len() - k,
{
    if k == items.len() {
        assert(items.take(k) =~= items);
    } else {
        assert(items.drop_last().take(k) =~= items.take(k));
        lemma_take_fields_fail(items.drop_last(), strict, k);
    }
}

impl SurfaceData {
    /// Reads an episode and its ratings from the fields of a form, given as
    /// pairs of name and value in the order in which they were submitted.
    ///
    /// The fields `date`, `flow` and `num` name the episode; where one of
    /// them occurs more than once, the last occurrence counts. Every other
    /// field whose value is a number from 1 to 5 is a rating under the
    /// field's name. Fails with `Format` when `date`, `flow` or `num` is
    /// missing or holds something else than a date, a flow token or a
    /// number, and, if `strict`, when any other field is not a rating.
    pub fn from_form(items: &Vec<(String, String)>, strict: bool) -> (r: Result<
        SurfaceData,
        ErrorKind,
    >)
        ensures
            match r {
                Ok(surface) => form_surface(field_views(items@), strict) == Some(surface@),
                Err(e) => e == ErrorKind::Format && form_surface(field_views(items@), strict)
                    .is_none(),
            },
            r matches Ok(surface) ==> forall|i: int|
                0 <= i < surface@.ratings.len() ==> 1 <= (#[trigger] surface@.ratings[i]).1 <= 5,
    {
        let ghost fields = field_views(items@);
        let mut date: Option<Datestamp> = None;
        let mut flow: Option<FlowType> = None;
        let mut num: Option<u32> = None;
        let mut ratings: Vec<Rating> = Vec::new();
        let mut i: usize = 0;
        assert(fields.take(0) =~= Seq::<(Seq<char>, Seq<char>)>::empty());
        assert(rating_views(ratings@) =~= Seq::<(Seq<char>, u8)>::empty());
        while i < items.len()
            invariant
                i <= items.len(),
                fields == field_views(items@),
                take_fields(fields.take(i as int), strict) == Some(
                    FormFields { date, flow, num, ratings: rating_views(ratings@) },
                ),
            decreases items.len() - i,
        {
            let name: &str = items[i].0.as_str();
            let value: &str = items[i].1.as_str();
            let ghost upto = fields.take(i + 1);
            let ghost before = rating_views(ratings@);
            assert(upto.drop_last() =~= fields.take(i as int));
            assert(upto.last() == (name@, value@));
            let mut failed: bool = false;
            if same_str(name, "date") {
                match Datestamp::from_str(value) {
                    Ok(d) => {
                        date = Some(d);
                    },
                    Err(_) => {
                        failed = true;
                    },
                }
            } else if same_str(name, "flow") {
                match FlowType::from_str(value) {
                    Ok(f) => {
                        flow = Some(f);
                    },
                    Err(_) => {
                        failed = true;
                    },
                }
            } else if same_str(name, "num") {
                match read_number(value) {
                    Some(n) => {
                        num = Some(n);
                    },
                    None => {
                        failed = true;
                    },
                }
            } else {
                match Likert::from_str(value) {
                    Ok(answer) => {
                        ratings.push(Rating { short: name.to_owned(), answer: answer.0 });
                        assert(rating_views(ratings@) =~= before.push((name@, answer.0)));
                    },
                    Err(_) => {
                        failed = strict;
                    },
                }
            }
            if failed {
                proof {
                    lemma_take_fields_fail(fields, strict, i + 1);
                }
                return Err(ErrorKind::Format);
            }
            i += 1;
        }
        assert(fields.take(items.len() as int) =~= fields);
        proof {
            lemma_form_ratings_on_scale(fields, strict);
        }
        match (date, flow, num) {
            (Some(date), Some(flow), Some(num)) => Ok(SurfaceData { date, flow, num, ratings }),
            _ => Err(ErrorKind::Format),
        }
    }
}

// ---------------------------------------------------------------------------
// Reports
// ---------------------------------------------------------------------------

/// A report that the image of an episode is bad, with the reasons given.
#[derive(Copy, Clone, PartialEq, Eq, Hash, Debug, Structural)]
pub struct Report {
    /// Episode date.
    pub date: Datestamp,
    /// Episode flow type.
    pub flow: FlowType,
    /// Episode number.
    pub num: u32,
    /// Is the image too dark?
    pub dark: bool,
    /// Is the image too bright?
    pub bright: bool,
    /// Is the image too blurry?
    pub blurry: bool,
    /// Is the image too grainy?
    pub grainy: bool,
}

impl Report {
    /// The key of the episode that the report is about.
    pub fn key(&self) -> (key: EpisodeKey)
        ensures
            key == (self.date, self.flow, self.num),
    {
        (self.date, self.flow, self.num)
    }

    /// Whether the report gives at least one reason.
    pub fn has_reason(&self) -> (r: bool)
        ensures
            r == (self.dark || self.bright || self.blurry || self.grainy),
    {
        self.dark || self.bright || self.blurry || self.grainy
    }
}

} // verus!
