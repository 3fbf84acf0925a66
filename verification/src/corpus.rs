//! Reading the labels of an exported training corpus and deciding whether a
//! vocabulary may be built from them.
//!
//! The vocabulary is a structural commitment (ids are positions), so silence
//! is the expensive failure mode: a corpus with no records, a frequency floor
//! that admits nothing, and a `rejected` label are errors, not files.
use vstd::prelude::*;
use crate::json::{bool_of, json_parse, member, parse_json, string_of, JsonValue};
use crate::text::{char_is_whitespace, chars_of, is_white_space};

verus! {

/// One training-pair label, reduced to what the vocabulary needs.
#[derive(Debug)]
pub struct Label {
    pub text: String,
    /// The record carries `empty_is_intentional`: a deliberate hard
    /// negative, which has no characters to contribute and is not a defect.
    pub intentional_negative: bool,
}

impl View for Label {
    type V = (Seq<char>, bool);

    open spec fn view(&self) -> (Seq<char>, bool) {
        (self.text@, self.intentional_negative)
    }
}

/// Why a record yields no label.
#[derive(Debug, Clone, Copy, PartialEq, Eq, Structural)]
pub enum RecordError {
    /// `provenance.state` is `rejected`: the export contract excludes that
    /// state, so the corpus violates it.
    Rejected,
    /// No string `text` member.
    MissingText,
}

/// The record's `provenance.state`, when it is a string.
pub open spec fn record_state(v: JsonValue) -> Option<Seq<char>> {
    match member(v, "provenance"@) {
        Some(p) => string_of(member(p, "state"@)),
        None => None,
    }
}

/// The label a record yields: refused when its provenance state is
/// `rejected`, refused when it has no string `text`, otherwise its text and
/// whether `empty_is_intentional` is `true` (absent or not a boolean counts
/// as `false`).
pub open spec fn record_label(v: JsonValue) -> Result<(Seq<char>, bool), RecordError> {
    if record_state(v) == Some("rejected"@) {
        Err(RecordError::Rejected)
    } else {
        match string_of(member(v, "text"@)) {
            None => Err(RecordError::MissingText),
            Some(t) => Ok((t, bool_of(member(v, "empty_is_intentional"@)) == Some(true))),
        }
    }
}

/// A record that yields a label yields its `text` member's string, and is an
/// intentional negative exactly when its `empty_is_intentional` member is the
/// JSON boolean `true` (a member that is `false`, not a boolean, or absent
/// gives `false`). A record whose provenance state is the string `rejected`
/// yields none.
pub proof fn lemma_record_label_fields(v: JsonValue)
    ensures
        record_label(v) matches Ok((text, negative)) ==> {
            &&& member(v, "text"@) matches Some(JsonValue::Str(s)) && s@ == text
            &&& negative <==> member(v, "empty_is_intentional"@) == Some(JsonValue::Bool(true))
        },
        (member(v, "provenance"@) matches Some(p) && member(p, "state"@) matches Some(JsonValue::Str(st))
            && st@ == "rejected"@) ==> record_label(v) == Err::<(Seq<char>, bool), RecordError>(
            RecordError::Rejected,
        ),
{
}

/// Pull the label out of one record, enforcing the export contract's
/// exclusion of rejected readings.
pub fn label_from_record(value: &JsonValue) -> (r: Result<Label, RecordError>)
    ensures
        match record_label(*value) {
            Ok(l) => r matches Ok(label) && label@ == l,
            Err(e) => r == Err::<Label, RecordError>(e),
        },
{
    let rejected = "rejected".to_owned();
    let state = match value.get("provenance") {
        Some(p) => match p.get("state") {
            Some(s) => s.as_str(),
            None => None,
        },
        None => None,
    };
    let is_rejected = match state {
        Some(s) => *s == rejected,
        None => false,
    };
    if is_rejected {
        return Err(RecordError::Rejected);
    }
    let text = match value.get("text") {
        Some(t) => match t.as_str() {
            Some(s) => s.clone(),
            None => return Err(RecordError::MissingText),
        },
        None => return Err(RecordError::MissingText),
    };
    let intentional_negative = match value.get("empty_is_intentional") {
        Some(f) => match f.as_bool() {
            Some(b) => b,
            None => false,
        },
        None => false,
    };
    Ok(Label { text, intentional_negative })
}

/// The pieces of `s` between newlines: one more than there are newlines.
pub open spec fn newline_pieces(s: Seq<char>) -> Seq<Seq<char>>
    decreases s.len(),
{
    if s.len() == 0 {
        seq![Seq::empty()]
    } else {
        let p = newline_pieces(s.drop_last());
        if s.last() == '\n' {
            p.push(Seq::empty())
        } else {
            p.update(p.len() - 1, p.last().push(s.last()))
        }
    }
}

/// A line without the carriage return of a `\r\n` ending.
pub open spec fn strip_cr(l: Seq<char>) -> Seq<char> {
    if l.len() > 0 && l.last() == '\r' {
        l.drop_last()
    } else {
        l
    }
}

/// The lines of `s` as `str::lines` gives them: split at `\n` and `\r\n`
/// endings, the endings not included, the final ending optional (a final
/// empty piece is no line).
pub open spec fn lines_of(s: Seq<char>) -> Seq<Seq<char>> {
    let p = newline_pieces(s);
    let ended = p.drop_last().map_values(|l: Seq<char>| strip_cr(l));
    if p.last().len() == 0 {
        ended
    } else {
        ended.push(p.last())
    }
}

proof fn lemma_newline_pieces_nonempty(s: Seq<char>)
    ensures
        newline_pieces(s).len() >= 1,
    decreases s.len(),
{
    if s.len() > 0 {
        lemma_newline_pieces_nonempty(s.drop_last());
    }
}

/// The lines of `text`, as `str::lines` gives them.
pub fn text_lines(text: &str) -> (lines: Vec<String>)
    ensures
        lines@.len() == lines_of(text@).len(),
        forall|j: int| 0 <= j < lines@.len() ==> #[trigger] lines@[j]@ == lines_of(text@)[j],
{
    let chars = chars_of(text);
    let n = chars.len();
    let mut lines: Vec<String> = Vec::new();
    let mut start: usize = 0;
    let mut i: usize = 0;
    while i < n
        invariant
            n == chars@.len(),
            chars@ == text@,
            start <= i <= n,
            newline_pieces(chars@.take(i as int)).last() == chars@.subrange(start as int, i as int),
            lines@.len() == newline_pieces(chars@.take(i as int)).len() - 1,
            forall|j: int|
                0 <= j < lines@.len() ==> #[trigger] lines@[j]@ == strip_cr(
                    newline_pieces(chars@.take(i as int))[j],
                ),
        decreases n - i,
    {
        let ghost before = newline_pieces(chars@.take(i as int));
        proof {
            lemma_newline_pieces_nonempty(chars@.take(i as int));
            assert(chars@.take(i + 1).drop_last() =~= chars@.take(i as int));
        }
        if chars[i] == '\n' {
            let end: usize = if i > start && chars[i - 1] == '\r' {
                i - 1
            } else {
                i
            };
            assert(chars@.subrange(start as int, end as int) =~= strip_cr(chars@.subrange(start as int, i as int)));
            let line = text.substring_char(start, end).to_owned();
            lines.push(line);
            start = i + 1;
            i = i + 1;
            assert(chars@.subrange(start as int, i as int) =~= Seq::<char>::empty());
            assert forall|j: int| 0 <= j < lines@.len() implies #[trigger] lines@[j]@ == strip_cr(
                newline_pieces(chars@.take(i as int))[j],
            ) by {
                assert(newline_pieces(chars@.take(i as int)) == before.push(Seq::empty()));
            }
        } else {
            let ghost c = chars@[i as int];
            i = i + 1;
            assert(chars@.subrange(start as int, i as int) =~= chars@.subrange(start as int, i - 1).push(c));
            assert forall|j: int| 0 <= j < lines@.len() implies #[trigger] lines@[j]@ == strip_cr(
                newline_pieces(chars@.take(i as int))[j],
            ) by {
                assert(newline_pieces(chars@.take(i as int)) == before.update(before.len() - 1, before.last().push(c)));
            }
        }
    }
    assert(chars@.take(n as int) =~= chars@);
    proof {
        lemma_newline_pieces_nonempty(chars@);
    }
    if start < n {
        let line = text.substring_char(start, n).to_owned();
        lines.push(line);
    }
    lines
}

/// Whether every character of `l` is whitespace (so `l.trim()` is empty).
pub open spec fn is_blank(l: Seq<char>) -> bool {
    forall|j: int| 0 <= j < l.len() ==> is_white_space(#[trigger] l[j])
}

/// Whether `line` holds nothing but whitespace.
pub fn is_blank_line(line: &String) -> (r: bool)
    ensures
        r == is_blank(line@),
{
    let chars = chars_of(line.as_str());
    let n = chars.len();
    let mut i: usize = 0;
    while i < n
        invariant
            n == chars@.len(),
            chars@ == line@,
            i <= n,
            forall|j: int| 0 <= j < i ==> is_white_space(#[trigger] chars@[j]),
        decreases n - i,
    {
        if !char_is_whitespace(chars[i]) {
            return false;
        }
        i = i + 1;
    }
    true
}

/// The non-blank lines of `ls`, each with its line number (counted from 1).
pub open spec fn numbered_records(ls: Seq<Seq<char>>) -> Seq<(int, Seq<char>)>
    decreases ls.len(),
{
    if ls.len() == 0 {
        Seq::empty()
    } else {
        let prev = numbered_records(ls.drop_last());
        if is_blank(ls.last()) {
            prev
        } else {
            prev.push((ls.len() as int, ls.last()))
        }
    }
}

/// The records of a JSON-lines text: its non-blank lines, each with its line
/// number (counted from 1).
pub fn record_lines(text: &str) -> (records: Vec<(usize, String)>)
    ensures
        records@.len() == numbered_records(lines_of(text@)).len(),
        forall|j: int|
            0 <= j < records@.len() ==> (#[trigger] records@[j]).0 == numbered_records(lines_of(text@))[j].0
                && records@[j].1@ == numbered_records(lines_of(text@))[j].1,
{
    let lines = text_lines(text);
    let ghost ls = lines_of(text@);
    let n = lines.len();
    let mut records: Vec<(usize, String)> = Vec::new();
    let mut i: usize = 0;
    while i < n
        invariant
            n == lines@.len(),
            n == ls.len(),
            forall|j: int| 0 <= j < n ==> #[trigger] lines@[j]@ == ls[j],
            i <= n,
            records@.len() == numbered_records(ls.take(i as int)).len(),
            forall|j: int|
                0 <= j < records@.len() ==> (#[trigger] records@[j]).0 == numbered_records(ls.take(i as int))[j].0
                    && records@[j].1@ == numbered_records(ls.take(i as int))[j].1,
        decreases n - i,
    {
        assert(ls.take(i + 1).drop_last() =~= ls.take(i as int));
        assert(ls.take(i + 1).last() == ls[i as int]);
        if !is_blank_line(&lines[i]) {
            records.push((i + 1, lines[i].clone()));
        }
        i = i + 1;
    }
    assert(ls.take(n as int) =~= ls);
    records
}

/// Why a record of a corpus file yields no label.
#[derive(Debug)]
pub enum LineFailure {
    /// The line is not JSON; the parser's message.
    Parse(String),
    /// The record is refused.
    Record(RecordError),
}

/// A failure as plain values: the refused record's reason, or the parser's
/// message.
pub open spec fn failure_view(f: LineFailure) -> Result<RecordError, Seq<char>> {
    match f {
        LineFailure::Parse(msg) => Err(msg@),
        LineFailure::Record(e) => Ok(e),
    }
}

/// The label of one record's text: refused when it does not parse (with the
/// parser's message) or when `record_label` refuses it.
pub open spec fn text_label(text: Seq<char>) -> Result<(Seq<char>, bool), Result<RecordError, Seq<char>>> {
    match json_parse(text) {
        Err(msg) => Err(Err(msg)),
        Ok(v) => match record_label(v) {
            Err(e) => Err(Ok(e)),
            Ok(l) => Ok(l),
        },
    }
}

/// The labels of numbered record lines, in order, or the first line that
/// fails (a parse failure or a refused record) with its number.
pub open spec fn records_outcome(records: Seq<(int, Seq<char>)>) -> Result<
    Seq<(Seq<char>, bool)>,
    (int, Result<RecordError, Seq<char>>),
>
    decreases records.len(),
{
    if records.len() == 0 {
        Ok(Seq::empty())
    } else {
        match records_outcome(records.drop_last()) {
            Err(e) => Err(e),
            Ok(ls) => match text_label(records.last().1) {
                Err(f) => Err((records.last().0, f)),
                Ok(l) => Ok(ls.push(l)),
            },
        }
    }
}

/// A failure on a prefix is the failure of the whole.
proof fn lemma_outcome_failure_persists(records: Seq<(int, Seq<char>)>, i: int)
    requires
        0 <= i <= records.len(),
        records_outcome(records.take(i)) is Err,
    ensures
        records_outcome(records) == records_outcome(records.take(i)),
    decreases records.len() - i,
{
    if i < records.len() {
        assert(records.take(i + 1).drop_last() =~= records.take(i));
        lemma_outcome_failure_persists(records, i + 1);
    } else {
        assert(records.take(i) =~= records);
    }
}

/// Labels are only ever collected from records that all parsed and all
/// yielded a label: a file holding a `rejected` record, or a line that is
/// not JSON, yields no labels at all rather than the others.
pub proof fn lemma_collected_records_are_all_admitted(records: Seq<(int, Seq<char>)>, j: int)
    requires
        records_outcome(records) is Ok,
        0 <= j < records.len(),
    ensures
        json_parse(records[j].1) is Ok,
        record_label(json_parse(records[j].1)->Ok_0) is Ok,
        record_state(json_parse(records[j].1)->Ok_0) != Some("rejected"@),
    decreases records.len(),
{
    if j < records.len() - 1 {
        lemma_collected_records_are_all_admitted(records.drop_last(), j);
        assert(records.drop_last()[j] == records[j]);
    }
}

/// Numbered record lines as plain values.
pub open spec fn records_view(records: Seq<(usize, String)>) -> Seq<(int, Seq<char>)> {
    Seq::new(records.len(), |i: int| (records[i].0 as int, records[i].1@))
}

/// The label of one record's text.
fn label_of_text(text: &str) -> (r: Result<Label, LineFailure>)
    ensures
        match text_label(text@) {
            Ok(l) => r matches Ok(label) && label@ == l,
            Err(f) => r matches Err(g) && failure_view(g) == f,
        },
{
    match parse_json(text) {
        Err(msg) => Err(LineFailure::Parse(msg)),
        Ok(value) => match label_from_record(&value) {
            Err(e) => Err(LineFailure::Record(e)),
            Ok(label) => Ok(label),
        },
    }
}

/// The labels of numbered record lines, parsed one by one. Stops at the
/// first line that does not parse or whose record is refused.
pub fn labels_of_records(records: &Vec<(usize, String)>) -> (r: Result<Vec<Label>, (usize, LineFailure)>)
    ensures
        match records_outcome(records_view(records@)) {
            Ok(ls) => r matches Ok(labels) && labels@.len() == ls.len() && forall|j: int|
                0 <= j < ls.len() ==> (#[trigger] labels@[j])@ == ls[j],
            Err((n, f)) => r matches Err((m, g)) && m == n && failure_view(g) == f,
        },
{
    let ghost rv = records_view(records@);
    let n = records.len();
    let mut labels: Vec<Label> = Vec::new();
    let mut i: usize = 0;
    while i < n
        invariant
            n == records@.len(),
            rv == records_view(records@),
            i <= n,
            records_outcome(rv.take(i as int)) matches Ok(ls) && labels@.len() == ls.len() && forall|j: int|
                0 <= j < ls.len() ==> (#[trigger] labels@[j])@ == ls[j],
        decreases n - i,
    {
        assert(rv.take(i + 1).drop_last() =~= rv.take(i as int));
        assert(rv.take(i + 1).last() == rv[i as int]);
        match label_of_text(records[i].1.as_str()) {
            Err(f) => {
                proof {
                    lemma_outcome_failure_persists(rv, i + 1);
                }
                return Err((records[i].0, f));
            },
            Ok(label) => {
                labels.push(label);
            },
        }
        i = i + 1;
    }
    assert(rv.take(n as int) =~= rv);
    Ok(labels)
}

/// What kind of corpus file a file is, by its extension.
#[derive(Debug, Clone, Copy, PartialEq, Eq, Structural)]
pub enum FileKind {
    /// `.json`: a single record.
    Json,
    /// `.jsonl`: one record per line.
    Jsonl,
    /// Anything else, which the corpus scan skips.
    Other,
}

/// The kind of a corpus file with this extension.
pub fn corpus_file_kind(extension: &str) -> (k: FileKind)
    ensures
        extension@ == "json"@ ==> k == FileKind::Json,
        extension@ == "jsonl"@ ==> k == FileKind::Jsonl,
        extension@ != "json"@ && extension@ != "jsonl"@ ==> k == FileKind::Other,
{
    proof {
        reveal_strlit("json");
        reveal_strlit("jsonl");
        assert("json"@.len() != "jsonl"@.len());
    }
    let ext = extension.to_owned();
    if ext == "json".to_owned() {
        FileKind::Json
    } else if ext == "jsonl".to_owned() {
        FileKind::Jsonl
    } else {
        FileKind::Other
    }
}

/// The labels a corpus file of this kind and text yields, or the failure
/// that refuses it, with its line number in a JSON-lines file. A file of
/// another kind yields nothing; a `.json` file is one record; a `.jsonl`
/// file is a record per non-blank line.
pub open spec fn file_outcome(kind: FileKind, text: Seq<char>) -> Result<
    Seq<(Seq<char>, bool)>,
    (Option<int>, Result<RecordError, Seq<char>>),
> {
    match kind {
        FileKind::Other => Ok(Seq::empty()),
        FileKind::Jsonl => match records_outcome(numbered_records(lines_of(text))) {
            Ok(ls) => Ok(ls),
            Err((n, f)) => Err((Some(n), f)),
        },
        FileKind::Json => match text_label(text) {
            Ok(l) => Ok(seq![l]),
            Err(f) => Err((None, f)),
        },
    }
}

/// A `.json` file is one record, whatever its layout across lines: its
/// result depends only on how its whole text parses. When the whole text
/// parses to a record that yields a label, the file yields exactly that
/// label; when it does not parse, the file is refused with the parser's
/// message and no line number.
pub proof fn lemma_json_file_is_one_record(t1: Seq<char>, t2: Seq<char>)
    ensures
        json_parse(t1) == json_parse(t2) ==> file_outcome(FileKind::Json, t1) == file_outcome(FileKind::Json, t2),
        json_parse(t1) matches Ok(v) ==> (record_label(v) matches Ok(l) ==> file_outcome(FileKind::Json, t1)
            == Ok::<Seq<(Seq<char>, bool)>, (Option<int>, Result<RecordError, Seq<char>>)>(seq![l])),
        json_parse(t1) matches Ok(v) ==> (record_label(v) matches Err(e) ==> file_outcome(FileKind::Json, t1)
            == Err::<Seq<(Seq<char>, bool)>, (Option<int>, Result<RecordError, Seq<char>>)>((None, Ok(e)))),
        json_parse(t1) matches Err(msg) ==> file_outcome(FileKind::Json, t1) == Err::<
            Seq<(Seq<char>, bool)>,
            (Option<int>, Result<RecordError, Seq<char>>),
        >((None, Err(msg))),
{
}

/// The labels of a corpus file of this kind, read from its text: one per
/// record, in order. Stops at the first record that does not parse or is
/// refused, and reports its line (in a JSON-lines file).
pub fn labels_of_file(kind: FileKind, raw: &str) -> (r: Result<Vec<Label>, (Option<usize>, LineFailure)>)
    ensures
        match file_outcome(kind, raw@) {
            Ok(ls) => r matches Ok(labels) && labels@.len() == ls.len() && forall|j: int|
                0 <= j < ls.len() ==> (#[trigger] labels@[j])@ == ls[j],
            Err((n, f)) => r matches Err((m, g)) && (match m {
                Some(x) => Some(x as int),
                None => None,
            }) == n && failure_view(g) == f,
        },
{
    match kind {
        FileKind::Other => Ok(Vec::new()),
        FileKind::Jsonl => {
            let records = record_lines(raw);
            assert(records_view(records@) =~= numbered_records(lines_of(raw@)));
            match labels_of_records(&records) {
                Ok(labels) => Ok(labels),
                Err((n, f)) => Err((Some(n), f)),
            }
        },
        FileKind::Json => match label_of_text(raw) {
            Ok(label) => {
                let mut labels: Vec<Label> = Vec::new();
                labels.push(label);
                Ok(labels)
            },
            Err(f) => Err((None, f)),
        },
    }
}

/// The character-level result of building a vocabulary.
#[derive(Debug, Clone, Copy, PartialEq, Eq, Structural)]
pub struct VocabReport {
    pub distinct_characters: usize,
    pub admitted: usize,
    pub dropped_rare: usize,
    pub characters_scanned: usize,
    pub empty_lines: usize,
}

/// What the corpus scan found, kept alongside the vocabulary itself.
#[derive(Debug, Clone, Copy, PartialEq, Eq, Structural)]
pub struct CorpusReport {
    /// Files that parsed as training-pair records.
    pub files_read: usize,
    /// Records whose label contributed to the scan.
    pub records_used: usize,
    /// Records carrying `empty_is_intentional`.
    pub intentional_negatives: usize,
    /// The character-level result.
    pub vocab: VocabReport,
}

/// Why no vocabulary is written.
#[derive(Debug, Clone, Copy, PartialEq, Eq, Structural)]
pub enum CorpusError {
    /// No training-pair records were found. A vocabulary of only the special
    /// tokens would look valid and decode every real character as unknown.
    NoRecords,
    /// Records were read and the frequency floor rejected every character.
    FloorAdmitsNothing { records: usize, min_frequency: usize },
}

/// How many labels are intentional negatives.
pub open spec fn count_negatives(labels: Seq<Label>) -> nat
    decreases labels.len(),
{
    if labels.len() == 0 {
        0
    } else {
        count_negatives(labels.drop_last()) + if labels.last().intentional_negative {
            1nat
        } else {
            0nat
        }
    }
}

/// The intentional-negative count is the number of labels flagged as
/// intentional negatives.
pub proof fn lemma_count_negatives_is_flagged_count(labels: Seq<Label>)
    ensures
        count_negatives(labels) == labels.filter(|l: Label| l.intentional_negative).len(),
    decreases labels.len(),
{
    reveal(Seq::filter);
    if labels.len() > 0 {
        lemma_count_negatives_is_flagged_count(labels.drop_last());
    }
}

proof fn lemma_count_negatives_bound(labels: Seq<Label>)
    ensures
        count_negatives(labels) <= labels.len(),
    decreases labels.len(),
{
    if labels.len() > 0 {
        lemma_count_negatives_bound(labels.drop_last());
    }
}

/// Refuse a corpus in which no record was found, before any vocabulary is
/// built from it.
pub fn check_records(labels: &Vec<Label>) -> (r: Result<(), CorpusError>)
    ensures
        r == (if labels@.len() == 0 {
            Err(CorpusError::NoRecords)
        } else {
            Ok(())
        }),
{
    if labels.len() == 0 {
        Err(CorpusError::NoRecords)
    } else {
        Ok(())
    }
}

/// How many of `labels` are intentional negatives.
pub fn intentional_negatives(labels: &Vec<Label>) -> (r: usize)
    ensures
        r == count_negatives(labels@),
        r <= labels@.len(),
{
    let n = labels.len();
    let mut count: usize = 0;
    let mut i: usize = 0;
    while i < n
        invariant
            n == labels@.len(),
            i <= n,
            count == count_negatives(labels@.take(i as int)),
        decreases n - i,
    {
        assert(labels@.take(i + 1).drop_last() =~= labels@.take(i as int));
        proof {
            lemma_count_negatives_bound(labels@.take(i as int));
        }
        if labels[i].intentional_negative {
            count = count + 1;
        }
        i = i + 1;
    }
    assert(labels@.take(n as int) =~= labels@);
    proof {
        lemma_count_negatives_bound(labels@);
    }
    count
}

/// The report of a corpus scan that read `files_read` files and found
/// `labels`, whose vocabulary came out as `vocab` at `min_frequency`; or
/// why no vocabulary may be written: no records, or a floor that admitted
/// no character.
pub fn corpus_report(files_read: usize, labels: &Vec<Label>, vocab: VocabReport, min_frequency: usize) -> (r: Result<
    CorpusReport,
    CorpusError,
>)
    ensures
        labels@.len() == 0 ==> r == Err::<CorpusReport, CorpusError>(CorpusError::NoRecords),
        labels@.len() > 0 && vocab.admitted == 0 ==> r == Err::<CorpusReport, CorpusError>(
            CorpusError::FloorAdmitsNothing { records: labels@.len() as usize, min_frequency },
        ),
        labels@.len() > 0 && vocab.admitted > 0 ==> r == Ok::<CorpusReport, CorpusError>(
            CorpusReport {
                files_read,
                records_used: labels@.len() as usize,
                intentional_negatives: count_negatives(labels@) as usize,
                vocab,
            },
        ),
        r matches Ok(report) ==> report.intentional_negatives <= report.records_used,
{
    check_records(labels)?;
    let negatives = intentional_negatives(labels);
    if vocab.admitted == 0 {
        return Err(CorpusError::FloorAdmitsNothing { records: labels.len(), min_frequency });
    }
    Ok(CorpusReport { files_read, records_used: labels.len(), intentional_negatives: negatives, vocab })
}

} // verus!
