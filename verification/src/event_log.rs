//! The two logs: one row for every set of ratings and one for every report.
//!
//! A log is a text of comma-separated rows under one header row. Rows are
//! only ever appended. The functions here write the text of a new row, say
//! what has to be written when a log is started, and read a log back into
//! the list of who has seen which episode.

use vstd::prelude::*;

use crate::errors::ErrorKind;
use crate::structs::{
    datestamp_of, flow_type_of, likert_of, Datestamp, EpisodeKey, FlowType, Likert, User,
};
use crate::surface::Report;
use crate::text::{
    chars_of, decimal_text, is_word, number_of, push_char, push_decimal, push_text, read_number,
};

verus! {

/// Which of the two logs.
#[derive(Copy, Clone, PartialEq, Eq, Hash, Debug, Structural)]
pub enum LogKind {
    /// The log of ratings.
    Ratings,
    /// The log of reports of bad images.
    Reports,
}

impl LogKind {
    /// The header row of the log, without the end of line.
    pub open spec fn header_text(self) -> Seq<char> {
        match self {
            LogKind::Ratings => "User,Date,Flow type,Number,Warm,Hard,Rough,Sticky"@,
            LogKind::Reports => "User,Date,Flow type,Number,Dark,Bright,Blurry,Grainy"@,
        }
    }

    /// The header row of the log, without the end of line.
    pub fn header(&self) -> (h: &'static str)
        ensures
            h@ == self.header_text(),
    {
        match self {
            LogKind::Ratings => "User,Date,Flow type,Number,Warm,Hard,Rough,Sticky",
            LogKind::Reports => "User,Date,Flow type,Number,Dark,Bright,Blurry,Grainy",
        }
    }
}

// ---------------------------------------------------------------------------
// Starting a log
// ---------------------------------------------------------------------------

/// What has to be appended to a log that holds `content` to start it: the
/// header and an end of line if the log is empty, nothing otherwise.
pub open spec fn bootstrap_text(content: Seq<char>, header: Seq<char>) -> Seq<char> {
    if content.len() == 0 {
        header + seq!['\n']
    } else {
        Seq::empty()
    }
}

/// The content of a log after it has been started.
pub open spec fn bootstrapped(content: Seq<char>, header: Seq<char>) -> Seq<char> {
    content + bootstrap_text(content, header)
}

/// Says what has to be appended to a log to start it. `content` is what the
/// log holds now: the empty text for a file that is missing or empty. The
/// answer is the header line for an empty log and the empty text for every
/// other, which is left as it is.
pub fn bootstrap(content: &str, header: &str) -> (written: String)
    ensures
        written@ == bootstrap_text(content@, header@),
{
    let mut out: String = String::new();
    if content.is_empty() {
        push_text(&mut out, header);
        push_char(&mut out, '\n');
        assert(out@ =~= header@ + seq!['\n']);
    }
    out
}

/// Starting a log twice is the same as starting it once. Starting a log
/// loses nothing of what it held, and an empty log holds exactly the header
/// line afterwards.
pub proof fn lemma_bootstrap_idempotent(content: Seq<char>, header: Seq<char>)
    ensures
        bootstrapped(bootstrapped(content, header), header) == bootstrapped(content, header),
        bootstrapped(content, header).take(content.len() as int) == content,
        content.len() == 0 ==> bootstrapped(content, header) == header + seq!['\n'],
        content.len() > 0 ==> bootstrapped(content, header) == content,
{
    let once = bootstrapped(content, header);
    assert(once.len() > 0);
    assert(once + Seq::<char>::empty() =~= once);
    assert(once.take(content.len() as int) =~= content);
    if content.len() == 0 {
        assert(once =~= header + seq!['\n']);
    } else {
        assert(once =~= content);
    }
}

// ---------------------------------------------------------------------------
// Writing rows
// ---------------------------------------------------------------------------

/// The fields of a row joined by commas.
pub open spec fn joined(fields: Seq<Seq<char>>) -> Seq<char>
    decreases fields.len(),
{
    if fields.len() == 0 {
        Seq::empty()
    } else if fields.len() == 1 {
        fields[0]
    } else {
        joined(fields.drop_last()) + seq![','] + fields.last()
    }
}

/// The line that holds a row: its fields joined by commas, and an end of
/// line.
pub open spec fn line_of(fields: Seq<Seq<char>>) -> Seq<char> {
    joined(fields) + seq!['\n']
}

/// How a truth value is written in a row.
pub open spec fn bool_text(b: bool) -> Seq<char> {
    if b {
        "true"@
    } else {
        "false"@
    }
}

/// The first four fields of every row: who, and which episode.
pub open spec fn key_fields(name: Seq<char>, key: EpisodeKey) -> Seq<Seq<char>> {
    seq![name, key.0.text(), key.1.token(), decimal_text(key.2 as nat)]
}

/// The fields of a row of the ratings log.
pub open spec fn rating_fields(
    name: Seq<char>,
    key: EpisodeKey,
    warm: Likert,
    hard: Likert,
    rough: Likert,
    sticky: Likert,
) -> Seq<Seq<char>> {
    key_fields(name, key) + seq![
        decimal_text(warm.0 as nat),
        decimal_text(hard.0 as nat),
        decimal_text(rough.0 as nat),
        decimal_text(sticky.0 as nat),
    ]
}

/// The fields of a row of the reports log.
pub open spec fn report_fields(name: Seq<char>, report: Report) -> Seq<Seq<char>> {
    key_fields(name, (report.date, report.flow, report.num)) + seq![
        bool_text(report.dark),
        bool_text(report.bright),
        bool_text(report.blurry),
        bool_text(report.grainy),
    ]
}

/// The views of a vector of strings.
pub open spec fn string_views(fields: Seq<String>) -> Seq<Seq<char>> {
    Seq::new(fields.len(), |i: int| fields[i]@)
}

/// The line that holds the given fields.
pub fn row_line(fields: &Vec<String>) -> (text: String)
    ensures
        text@ == line_of(string_views(fields@)),
{
    let ghost all = string_views(fields@);
    let mut out: String = String::new();
    let mut i: usize = 0;
    assert(all.take(0) =~= Seq::<Seq<char>>::empty());
    while i < fields.len()
        invariant
            i <= fields.len(),
            all == string_views(fields@),
            out@ == joined(all.take(i as int)),
        decreases fields.len() - i,
    {
        let ghost upto = all.take(i + 1);
        assert(upto.drop_last() =~= all.take(i as int));
        assert(upto.last() == fields@[i as int]@);
        if i > 0 {
            push_char(&mut out, ',');
        }
        push_text(&mut out, fields[i].as_str());
        assert(out@ =~= joined(upto)) by {
            if i == 0 {
                assert(upto[0] == upto.last());
            }
        }
        i += 1;
    }
    assert(all.take(fields.len() as int) =~= all);
    push_char(&mut out, '\n');
    out
}

/// The decimal notation of `n`.
fn decimal(n: u32) -> (s: String)
    ensures
        s@ == decimal_text(n as nat),
{
    let mut out: String = String::new();
    push_decimal(&mut out, n as u64);
    assert(out@ =~= decimal_text(n as nat));
    out
}

/// `true` or `false`.
fn truth(b: bool) -> (s: String)
    ensures
        s@ == bool_text(b),
{
    if b {
        "true".to_owned()
    } else {
        "false".to_owned()
    }
}

/// The line to append to the ratings log when `user` has rated the episode
/// `key`: the name, the date, the flow token, the number and the four
/// answers, separated by commas and followed by an end of line. The name is
/// written as it is.
pub fn rating_line(
    user: &User,
    key: &EpisodeKey,
    warm: Likert,
    hard: Likert,
    rough: Likert,
    sticky: Likert,
) -> (text: String)
    ensures
        text@ == line_of(rating_fields(user@, *key, warm, hard, rough, sticky)),
{
    let mut fields: Vec<String> = Vec::new();
    fields.push(user.name.clone());
    fields.push(key.0.to_string());
    fields.push(key.1.to_string());
    fields.push(decimal(key.2));
    fields.push(decimal(warm.0 as u32));
    fields.push(decimal(hard.0 as u32));
    fields.push(decimal(rough.0 as u32));
    fields.push(decimal(sticky.0 as u32));
    assert(string_views(fields@) =~= rating_fields(user@, *key, warm, hard, rough, sticky));
    row_line(&fields)
}

/// The line to append to the reports log when `user` has reported the image
/// of an episode: the name, the date, the flow token, the number and the
/// four reasons as `true` or `false`, separated by commas and followed by an
/// end of line. The name is written as it is.
pub fn report_line(user: &User, report: &Report) -> (text: String)
    ensures
        text@ == line_of(report_fields(user@, *report)),
{
    let mut fields: Vec<String> = Vec::new();
    fields.push(user.name.clone());
    fields.push(report.date.to_string());
    fields.push(report.flow.to_string());
    fields.push(decimal(report.num));
    fields.push(truth(report.dark));
    fields.push(truth(report.bright));
    fields.push(truth(report.blurry));
    fields.push(truth(report.grainy));
    assert(string_views(fields@) =~= report_fields(user@, *report));
    row_line(&fields)
}

// ---------------------------------------------------------------------------
// Reading rows back
// ---------------------------------------------------------------------------

/// One row of a log, read back: who has seen which episode.
#[derive(Clone, PartialEq, Eq, Debug)]
pub struct LogEntry {
    /// Who rated or reported.
    pub user: User,
    /// Date of the episode that was rated or reported.
    pub date: Datestamp,
    /// Flow type of the episode.
    pub flow: FlowType,
    /// Number of the episode.
    pub num: u32,
}

impl View for LogEntry {
    type V = (Seq<char>, EpisodeKey);

    open spec fn view(&self) -> (Seq<char>, EpisodeKey) {
        (self.user@, (self.date, self.flow, self.num))
    }
}

impl LogEntry {
    /// The key of the episode.
    pub fn key(&self) -> (key: EpisodeKey)
        ensures
            key == self@.1,
    {
        (self.date, self.flow, self.num)
    }
}

/// The views of a list of entries.
pub open spec fn entry_views(entries: Seq<LogEntry>) -> Seq<(Seq<char>, EpisodeKey)> {
    Seq::new(entries.len(), |i: int| entries[i]@)
}

/// The views of the rows of a log.
pub open spec fn row_views(rows: Seq<Vec<String>>) -> Seq<Seq<Seq<char>>> {
    Seq::new(rows.len(), |i: int| string_views(rows[i]@))
}

/// The truth value that a field denotes.
pub open spec fn bool_of(s: Seq<char>) -> Option<bool> {
    if s == "true"@ {
        Some(true)
    } else if s == "false"@ {
        Some(false)
    } else {
        None
    }
}

/// Who has seen what according to the first four fields of a row. `None`
/// when the row has fewer than four fields or the second, third or fourth
/// is not a date, a flow token or a number.
pub open spec fn row_key(row: Seq<Seq<char>>) -> Option<(Seq<char>, EpisodeKey)> {
    if row.len() < 4 {
        None
    } else {
        match (datestamp_of(row[1]), flow_type_of(row[2]), number_of(row[3])) {
            (Some(date), Some(flow), Some(num)) => Some((row[0], (date, flow, num))),
            _ => None,
        }
    }
}

/// Whether every field of a row after the fourth is a rating from 1 to 5.
pub open spec fn answers_are_ratings(row: Seq<Seq<char>>) -> bool {
    forall|i: int| 4 <= i < row.len() ==> likert_of(#[trigger] row[i]).is_some()
}

/// Whether the fifth to eighth field of a row are there and are truth
/// values.
pub open spec fn reasons_are_bools(row: Seq<Seq<char>>) -> bool {
    row.len() >= 8 && forall|i: int| 4 <= i < 8 ==> bool_of(#[trigger] row[i]).is_some()
}

/// What a row of a log of the given kind says, or `None` for a row that
/// could not have been written by `rating_line` or `report_line`.
pub open spec fn read_row(kind: LogKind, row: Seq<Seq<char>>) -> Option<(Seq<char>, EpisodeKey)> {
    match kind {
        LogKind::Ratings => if answers_are_ratings(row) {
            row_key(row)
        } else {
            None
        },
        LogKind::Reports => if reasons_are_bools(row) {
            row_key(row)
        } else {
            None
        },
    }
}

/// What the rows of a log say, in order. `None` as soon as one row cannot be
/// read.
pub open spec fn read_rows(kind: LogKind, rows: Seq<Seq<Seq<char>>>) -> Option<
    Seq<(Seq<char>, EpisodeKey)>,
>
    decreases rows.len(),
{
    if rows.len() == 0 {
        Some(Seq::empty())
    } else {
        match (read_rows(kind, rows.drop_last()), read_row(kind, rows.last())) {
            (Some(before), Some(entry)) => Some(before.push(entry)),
            _ => None,
        }
    }
}

/// The rows of a log cannot be read as soon as a prefix of them cannot.
proof fn lemma_read_rows_fail(kind: LogKind, rows: Seq<Seq<Seq<char>>>, k: int)
    requires
        0 <= k <= rows.len(),
        read_rows(kind, rows.take(k)).is_none(),
    ensures
        read_rows(kind, rows).is_none(),
    decreases rows.len() - k,
{
    if k == rows.len() {
        assert(rows.take(k) =~= rows);
    } else {
        assert(rows.drop_last().take(k) =~= rows.take(k));
        lemma_read_rows_fail(kind, rows.drop_last(), k);
    }
}

/// Whether a field is `true` or `false`.
fn is_bool(field: &str) -> (r: bool)
    ensures
        r == bool_of(field@).is_some(),
{
    let cs: Vec<char> = chars_of(field);
    is_word(&cs, "true") || is_word(&cs, "false")
}

/// Whether the fields of a row after the fourth are what the kind of the
/// log asks for: ratings in the ratings log, four truth values in the
/// reports log.
fn check_tail(kind: LogKind, row: &Vec<String>) -> (ok: bool)
    ensures
        ok == match kind {
            LogKind::Ratings => answers_are_ratings(string_views(row@)),
            LogKind::Reports => reasons_are_bools(string_views(row@)),
        },
{
    let ghost fields = string_views(row@);
    let end: usize = match kind {
        LogKind::Ratings => row.len(),
        LogKind::Reports => {
            if row.len() < 8 {
                return false;
            }
            8
        },
    };
    let mut i: usize = 4;
    while i < end
        invariant
            4 <= i,
            end <= row.len(),
            fields == string_views(row@),
            kind == LogKind::Ratings ==> end == row.len(),
            kind == LogKind::Reports ==> end == 8,
            forall|j: int|
                4 <= j < i ==> match kind {
                    LogKind::Ratings => likert_of(#[trigger] fields[j]).is_some(),
                    LogKind::Reports => bool_of(#[trigger] fields[j]).is_some(),
                },
        decreases end - i,
    {
        assert(fields[i as int] == row@[i as int]@);
        let good: bool = match kind {
            LogKind::Ratings => Likert::from_str(row[i].as_str()).is_ok(),
            LogKind::Reports => is_bool(row[i].as_str()),
        };
        if !good {
            return false;
        }
        i += 1;
    }
    true
}

/// Reads one row of a log.
fn read_one(kind: LogKind, row: &Vec<String>) -> (r: Option<LogEntry>)
    ensures
        match r {
            Some(entry) => read_row(kind, string_views(row@)) == Some(entry@),
            None => read_row(kind, string_views(row@)).is_none(),
        },
{
    let ghost fields = string_views(row@);
    if !check_tail(kind, row) {
        return None;
    }
    if row.len() < 4 {
        return None;
    }
    assert(fields[0] == row@[0]@);
    assert(fields[1] == row@[1]@);
    assert(fields[2] == row@[2]@);
    assert(fields[3] == row@[3]@);
    let date: Datestamp = match Datestamp::from_str(row[1].as_str()) {
        Ok(d) => d,
        Err(_) => {
            return None;
        },
    };
    let flow: FlowType = match FlowType::from_str(row[2].as_str()) {
        Ok(f) => f,
        Err(_) => {
            return None;
        },
    };
    let num: u32 = match read_number(row[3].as_str()) {
        Some(n) => n,
        None => {
            return None;
        },
    };
    Some(LogEntry { user: User { name: row[0].clone() }, date, flow, num })
}

/// Reads the rows of a log, the header row not among them, into the list of
/// who has seen which episode, in the order of the rows.
///
/// A row names the rater in its first field and the episode in the next
/// three. In the ratings log every further field must be a rating from 1 to
/// 5; in the reports log the fifth to eighth field must be `true` or
/// `false`. Fails with `Log` as soon as one row is not like that, and then
/// gives no entries at all.
pub fn read_log_rows(kind: LogKind, rows: &Vec<Vec<String>>) -> (r: Result<
    Vec<LogEntry>,
    ErrorKind,
>)
    ensures
        match r {
            Ok(entries) => read_rows(kind, row_views(rows@)) == Some(entry_views(entries@)),
            Err(e) => e == ErrorKind::Log && read_rows(kind, row_views(rows@)).is_none(),
        },
{
    let ghost all = row_views(rows@);
    let mut entries: Vec<LogEntry> = Vec::new();
    let mut i: usize = 0;
    assert(all.take(0) =~= Seq::<Seq<Seq<char>>>::empty());
    assert(entry_views(entries@) =~= Seq::<(Seq<char>, EpisodeKey)>::empty());
    while i < rows.len()
        invariant
            i <= rows.len(),
            all == row_views(rows@),
            read_rows(kind, all.take(i as int)) == Some(entry_views(entries@)),
        decreases rows.len() - i,
    {
        let ghost upto = all.take(i + 1);
        let ghost before = entry_views(entries@);
        assert(upto.drop_last() =~= all.take(i as int));
        assert(upto.last() == string_views(rows@[i as int]@));
        match read_one(kind, &rows[i]) {
            Some(entry) => {
                let ghost added = entry@;
                entries.push(entry);
                assert(entry_views(entries@) =~= before.push(added));
            },
            None => {
                proof {
                    lemma_read_rows_fail(kind, all, i + 1);
                }
                return Err(ErrorKind::Log);
            },
        }
        i += 1;
    }
    assert(all.take(rows.len() as int) =~= all);
    Ok(entries)
}

// ---------------------------------------------------------------------------
// What was written is read back
// ---------------------------------------------------------------------------

/// The first four fields written for a rater and an episode are read back as
/// that rater and that episode.
proof fn lemma_key_fields_read_back(name: Seq<char>, key: EpisodeKey, rest: Seq<Seq<char>>)
    ensures
        row_key(key_fields(name, key) + rest) == Some((name, key)),
{
    let row = key_fields(name, key) + rest;
    assert(row[0] == name);
    assert(row[1] == key.0.text());
    assert(row[2] == key.1.token());
    assert(row[3] == decimal_text(key.2 as nat));
    crate::text::lemma_parse_decimal_text(key.0.0 as nat, u32::MAX as nat);
    crate::text::lemma_parse_decimal_text(key.2 as nat, u32::MAX as nat);
    crate::structs::lemma_flow_token_round_trip(key.1, key.1.token());
}

/// A rating on the scale is read back from its notation.
proof fn lemma_likert_read_back(answer: Likert)
    requires
        answer.wf(),
    ensures
        likert_of(decimal_text(answer.0 as nat)) == Some(answer),
{
    crate::text::lemma_parse_decimal_text(answer.0 as nat, u8::MAX as nat);
}

/// The row written for a set of ratings is read back as the rater and the
/// episode it was written for, provided that the four answers are on the
/// scale from 1 to 5.
pub proof fn lemma_rating_row_read_back(
    name: Seq<char>,
    key: EpisodeKey,
    warm: Likert,
    hard: Likert,
    rough: Likert,
    sticky: Likert,
)
    requires
        warm.wf(),
        hard.wf(),
        rough.wf(),
        sticky.wf(),
    ensures
        read_row(LogKind::Ratings, rating_fields(name, key, warm, hard, rough, sticky)) == Some(
            (name, key),
        ),
{
    let row = rating_fields(name, key, warm, hard, rough, sticky);
    lemma_likert_read_back(warm);
    lemma_likert_read_back(hard);
    lemma_likert_read_back(rough);
    lemma_likert_read_back(sticky);
    assert(row.len() == 8);
    assert(row[4] == decimal_text(warm.0 as nat));
    assert(row[5] == decimal_text(hard.0 as nat));
    assert(row[6] == decimal_text(rough.0 as nat));
    assert(row[7] == decimal_text(sticky.0 as nat));
    assert(answers_are_ratings(row));
    lemma_key_fields_read_back(
        name,
        key,
        seq![
            decimal_text(warm.0 as nat),
            decimal_text(hard.0 as nat),
            decimal_text(rough.0 as nat),
            decimal_text(sticky.0 as nat),
        ],
    );
}

/// The row written for a report is read back as the rater and the episode
/// it was written for.
pub proof fn lemma_report_row_read_back(name: Seq<char>, report: Report)
    ensures
        read_row(LogKind::Reports, report_fields(name, report)) == Some(
            (name, (report.date, report.flow, report.num)),
        ),
{
    let row = report_fields(name, report);
    assert(row.len() == 8);
    assert(row[4] == bool_text(report.dark));
    assert(row[5] == bool_text(report.bright));
    assert(row[6] == bool_text(report.blurry));
    assert(row[7] == bool_text(report.grainy));
    assert(bool_of("true"@) == Some(true));
    assert(bool_of("false"@).is_some());
    assert(reasons_are_bools(row));
    lemma_key_fields_read_back(
        name,
        (report.date, report.flow, report.num),
        seq![
            bool_text(report.dark),
            bool_text(report.bright),
            bool_text(report.blurry),
            bool_text(report.grainy),
        ],
    );
}

/// Reading back a log gives, in the order of the rows, the rater and the
/// episode of every row, whenever each row reads as the entry it was
/// written for: nothing is lost, added or reordered.
pub proof fn lemma_rows_read_back(
    kind: LogKind,
    rows: Seq<Seq<Seq<char>>>,
    entries: Seq<(Seq<char>, EpisodeKey)>,
)
    requires
        rows.len() == entries.len(),
        forall|i: int| 0 <= i < rows.len() ==> read_row(kind, #[trigger] rows[i]) == Some(entries[i]),
    ensures
        read_rows(kind, rows) == Some(entries),
    decreases rows.len(),
{
    if rows.len() == 0 {
        assert(entries =~= Seq::<(Seq<char>, EpisodeKey)>::empty());
    } else {
        let n = rows.len() - 1;
        assert forall|i: int| 0 <= i < n implies read_row(kind, #[trigger] rows.drop_last()[i])
            == Some(entries.drop_last()[i]) by {
            assert(rows.drop_last()[i] == rows[i]);
        }
        lemma_rows_read_back(kind, rows.drop_last(), entries.drop_last());
        assert(read_row(kind, rows[n]) == Some(entries[n]));
        assert(entries.drop_last().push(entries[n]) =~= entries);
    }
}

// ---------------------------------------------------------------------------
// From text to rows
// ---------------------------------------------------------------------------

/// What the `csv` crate fails with.
#[verifier::external_type_specification]
#[verifier::external_body]
pub struct ExCsvError(csv::Error);

/// The records that the `csv` crate's reader, as `csv::Reader::from_reader`
/// sets it up, finds in a text after its first record, each as the list of
/// its fields; `None` for a text that the reader refuses.
pub uninterp spec fn csv_records(text: Seq<char>) -> Option<Seq<Seq<Seq<char>>>>;

/// Splits the text of a log into rows of fields with the `csv` crate:
/// `csv::Reader::from_reader` on the bytes of the text, then `records`,
/// which leaves out the first record as the header. The contract names the
/// outcome `csv_records` and claims no more than that the same text always
/// gives the same outcome.
#[verifier::external_body]
fn csv_rows(text: &str) -> (r: Result<Vec<Vec<String>>, csv::Error>)
    ensures
        r matches Ok(rows) ==> csv_records(text@) == Some(row_views(rows@)),
        r is Err ==> csv_records(text@).is_none(),
{
    let mut reader = csv::Reader::from_reader(text.as_bytes());
    let mut rows: Vec<Vec<String>> = Vec::new();
    for record in reader.records() {
        rows.push(record?.iter().map(|field| field.to_string()).collect());
    }
    Ok(rows)
}

/// What a log says, given the records found in its text.
pub open spec fn replayed(kind: LogKind, records: Option<Seq<Seq<Seq<char>>>>) -> Option<
    Seq<(Seq<char>, EpisodeKey)>,
> {
    match records {
        Some(rows) => read_rows(kind, rows),
        None => None,
    }
}

/// Reads a whole log back into the list of who has seen which episode, in
/// the order of the rows. The first row is the header and is passed over.
/// Fails with `Log` when the text is not a table of comma-separated rows or
/// when `read_log_rows` fails on its rows.
pub fn replay(kind: LogKind, text: &str) -> (r: Result<Vec<LogEntry>, ErrorKind>)
    ensures
        match r {
            Ok(entries) => replayed(kind, csv_records(text@)) == Some(entry_views(entries@)),
            Err(e) => e == ErrorKind::Log && replayed(kind, csv_records(text@)).is_none(),
        },
{
    match csv_rows(text) {
        Ok(rows) => read_log_rows(kind, &rows),
        Err(_) => Err(ErrorKind::Log),
    }
}

} // verus!
