use vstd::prelude::*;

use crate::constants::{TimeStep, ID};
use crate::task::{Task, TaskView};
use crate::taskset::TaskSet;

verus! {

/// Whether a character is white space (the Unicode `White_Space` property).
pub open spec fn is_white_space(c: char) -> bool {
    ||| '\t' <= c <= '\r'
    ||| c == ' '
    ||| c == '\u{85}'
    ||| c == '\u{a0}'
    ||| c == '\u{1680}'
    ||| '\u{2000}' <= c <= '\u{200a}'
    ||| c == '\u{2028}'
    ||| c == '\u{2029}'
    ||| c == '\u{202f}'
    ||| c == '\u{205f}'
    ||| c == '\u{3000}'
}

/// The text without its leading white space.
pub open spec fn trim_start(s: Seq<char>) -> Seq<char>
    decreases s.len(),
{
    if s.len() > 0 && is_white_space(s[0]) {
        trim_start(s.drop_first())
    } else {
        s
    }
}

/// The text without its trailing white space.
pub open spec fn trim_end(s: Seq<char>) -> Seq<char>
    decreases s.len(),
{
    if s.len() > 0 && is_white_space(s.last()) {
        trim_end(s.drop_last())
    } else {
        s
    }
}

/// The text without its leading and trailing white space.
pub open spec fn trimmed(s: Seq<char>) -> Seq<char> {
    trim_end(trim_start(s))
}

/// Whether a character is an ASCII decimal digit.
pub open spec fn is_digit(c: char) -> bool {
    '0' <= c <= '9'
}

/// The value of a decimal digit.
pub open spec fn digit_value(c: char) -> int {
    c as int - '0' as int
}

/// The value of a string of decimal digits, most significant first.
pub open spec fn digits_value(s: Seq<char>) -> int
    decreases s.len(),
{
    if s.len() == 0 {
        0
    } else {
        digits_value(s.drop_last()) * 10 + digit_value(s.last())
    }
}

/// A non-empty string of decimal digits.
pub open spec fn is_numeral(s: Seq<char>) -> bool {
    s.len() > 0 && forall|i: int| 0 <= i < s.len() ==> #[trigger] is_digit(s[i])
}

/// The integer a text spells in decimal: an optional `+` or `-` sign followed by at
/// least one digit, and nothing else.
pub open spec fn spelled_integer(s: Seq<char>) -> Option<int> {
    if s.len() > 0 && (s[0] == '-' || s[0] == '+') {
        if is_numeral(s.drop_first()) {
            Some(
                if s[0] == '-' {
                    -digits_value(s.drop_first())
                } else {
                    digits_value(s.drop_first())
                },
            )
        } else {
            None
        }
    } else if is_numeral(s) {
        Some(digits_value(s))
    } else {
        None
    }
}

/// The time step a text spells, when it spells an integer within `TimeStep`.
pub open spec fn spelled_time_step(s: Seq<char>) -> Option<TimeStep> {
    match spelled_integer(s) {
        Some(v) => if TimeStep::MIN <= v <= TimeStep::MAX {
            Some(v as TimeStep)
        } else {
            None
        },
        None => None,
    }
}

proof fn lemma_digits_value_prefix(s: Seq<char>, k: int)
    requires
        0 <= k <= s.len(),
        forall|i: int| 0 <= i < s.len() ==> #[trigger] is_digit(s[i]),
    ensures
        0 <= digits_value(s.take(k)) <= digits_value(s),
    decreases s.len(),
{
    if s.len() > 0 {
        let p = s.drop_last();
        assert forall|i: int| 0 <= i < p.len() implies #[trigger] is_digit(p[i]) by {
            assert(p[i] == s[i]);
        }
        assert(is_digit(s[s.len() - 1]));
        if k == s.len() {
            assert(s.take(k) =~= s);
            lemma_digits_value_prefix(p, k - 1);
            assert(p.take(k - 1) =~= p);
        } else {
            lemma_digits_value_prefix(p, k);
            assert(p.take(k) =~= s.take(k));
        }
    }
}

/// Once a prefix of the digits spells a value out of range, the whole text spells no
/// time step.
proof fn lemma_overflow_is_final(s: Seq<char>, start: int, k: int)
    requires
        0 <= start < s.len(),
        start == 1 <==> (s[0] == '-' || s[0] == '+'),
        start == 0 || start == 1,
        0 <= k <= s.len() - start,
        forall|j: int| start <= j < start + k ==> #[trigger] is_digit(s[j]),
        if s[0] == '-' {
            -digits_value(s.subrange(start, s.len() as int).take(k)) < TimeStep::MIN
        } else {
            digits_value(s.subrange(start, s.len() as int).take(k)) > TimeStep::MAX
        },
    ensures
        spelled_time_step(s) is None,
{
    let digits = s.subrange(start, s.len() as int);
    if start == 1 {
        assert(s.drop_first() =~= digits);
    } else {
        assert(s =~= digits);
    }
    if is_numeral(digits) {
        lemma_digits_value_prefix(digits, k);
    }
}

/// The text without its leading and trailing white space.
pub fn trim(s: &Vec<char>) -> (r: Vec<char>)
    ensures
        r@ == trimmed(s@),
{
    let n = s.len();
    let mut start: usize = 0;
    assert(s@.subrange(0, n as int) =~= s@);
    while start < n && is_white_space_char(s[start])
        invariant
            n == s@.len(),
            start <= n,
            trim_start(s@) == trim_start(s@.subrange(start as int, n as int)),
        decreases n - start,
    {
        assert(s@.subrange(start as int, n as int).drop_first() =~= s@.subrange(
            start + 1,
            n as int,
        ));
        start = start + 1;
    }
    let ghost front = s@.subrange(start as int, n as int);
    assert(trim_start(s@) == front);
    let mut end: usize = n;
    while end > start && is_white_space_char(s[end - 1])
        invariant
            n == s@.len(),
            start <= end <= n,
            front == s@.subrange(start as int, n as int),
            trim_end(front) == trim_end(s@.subrange(start as int, end as int)),
        decreases end,
    {
        assert(s@.subrange(start as int, end as int).drop_last() =~= s@.subrange(
            start as int,
            end - 1,
        ));
        end = end - 1;
    }
    let mut r: Vec<char> = Vec::new();
    let mut i: usize = start;
    while i < end
        invariant
            start <= i <= end <= n,
            n == s@.len(),
            r@ == s@.subrange(start as int, i as int),
        decreases end - i,
    {
        r.push(s[i]);
        assert(r@ =~= s@.subrange(start as int, i + 1));
        i = i + 1;
    }
    r
}

/// Whether a character is white space.
fn is_white_space_char(c: char) -> (r: bool)
    ensures
        r == is_white_space(c),
{
    ('\t' <= c && c <= '\r') || c == ' ' || c == '\u{85}' || c == '\u{a0}' || c == '\u{1680}' || (
    '\u{2000}' <= c && c <= '\u{200a}') || c == '\u{2028}' || c == '\u{2029}' || c == '\u{202f}'
        || c == '\u{205f}' || c == '\u{3000}'
}

/// The time step the text spells in decimal (an optional sign, then digits); `None` when
/// it spells none or one out of the range of `TimeStep`.
pub fn parse_time_step(s: &Vec<char>) -> (r: Option<TimeStep>)
    ensures
        r == spelled_time_step(s@),
{
    let n = s.len();
    if n == 0 {
        return None;
    }
    let negative = s[0] == '-';
    let start: usize = if s[0] == '-' || s[0] == '+' {
        1
    } else {
        0
    };
    if start == n {
        return None;
    }
    let ghost digits = s@.subrange(start as int, n as int);
    proof {
        if start == 1 {
            assert(s@.drop_first() =~= digits);
        } else {
            assert(s@ =~= digits);
        }
    }
    let mut acc: TimeStep = 0;
    let mut i: usize = start;
    while i < n
        invariant
            start <= i <= n,
            n == s@.len(),
            start < n,
            start == 0 || start == 1,
            start == 1 <==> (s@[0] == '-' || s@[0] == '+'),
            negative == (s@[0] == '-'),
            start == 1 ==> s@.drop_first() == digits,
            start == 0 ==> s@ == digits,
            digits == s@.subrange(start as int, n as int),
            forall|j: int| start <= j < i ==> #[trigger] is_digit(s@[j]),
            acc == (if negative {
                -digits_value(digits.take(i - start))
            } else {
                digits_value(digits.take(i - start))
            }),
        decreases n - i,
    {
        let c = s[i];
        if !('0' <= c && c <= '9') {
            proof {
                assert(!is_digit(digits[i - start]));
            }
            return None;
        }
        let d = (c as u32 - '0' as u32) as TimeStep;
        assert(digits.take(i + 1 - start).drop_last() =~= digits.take(i - start));
        assert(digits.take(i + 1 - start).last() == c);
        assert(d == digit_value(c));
        proof {
            lemma_digits_value_prefix(digits.take(i + 1 - start), i - start);
            assert(digits.take(i + 1 - start).take(i - start) =~= digits.take(i - start));
        }
        match acc.checked_mul(10) {
            Some(m) => {
                let next = if negative {
                    m.checked_sub(d)
                } else {
                    m.checked_add(d)
                };
                match next {
                    Some(v) => {
                        acc = v;
                    },
                    None => {
                        proof {
                            lemma_overflow_is_final(s@, start as int, i + 1 - start);
                        }
                        return None;
                    },
                }
            },
            None => {
                proof {
                    lemma_overflow_is_final(s@, start as int, i + 1 - start);
                }
                return None;
            },
        }
        i = i + 1;
    }
    assert(digits.take(n - start) =~= digits);
    Some(acc)
}

/// The `csv` crate's error type.
#[verifier::external_type_specification]
#[verifier::external_body]
pub struct ExCsvError(csv::Error);

/// What the `csv` crate reads from `bytes` with no header row: the records before the
/// first error, each field as its characters, and whether an error ended the reading.
pub uninterp spec fn csv_records(bytes: Seq<u8>) -> (Seq<Seq<Seq<char>>>, bool);

/// The characters of each field of each record.
pub open spec fn record_views(v: Seq<Vec<Vec<char>>>) -> Seq<Seq<Seq<char>>> {
    v.map_values(|r: Vec<Vec<char>>| r@.map_values(|f: Vec<char>| f@))
}

/// Reads the CSV records of `bytes` with the `csv` crate (`ReaderBuilder` with
/// `has_headers(false)`, all else by default) up to the first error, which it hands back
/// beside the records read before it. The contract claims that these are
/// `csv_records(bytes)`.
#[verifier::external_body]
fn read_records(bytes: &[u8]) -> (r: (Vec<Vec<Vec<char>>>, Option<csv::Error>))
    ensures
        csv_records(bytes@) == (record_views(r.0@), r.1 is Some),
{
    let mut reader = csv::ReaderBuilder::new().has_headers(false).from_reader(bytes);
    let mut records = Vec::new();
    for result in reader.records() {
        match result {
            Ok(record) => records.push(record.iter().map(|f| f.chars().collect()).collect()),
            Err(e) => return (records, Some(e)),
        }
    }
    (records, None)
}

/// Why a task file could not be read.
#[derive(Debug)]
pub enum TaskFileError {
    /// The CSV reader failed.
    Csv(csv::Error),
    /// Record `record` (from zero) has no field `field`.
    MissingField { record: usize, field: usize },
    /// Field `field` of record `record` (both from zero) is not a time step.
    InvalidNumber { record: usize, field: usize },
}

/// The text of field `j` of a record: the first field as it is, the others trimmed.
pub open spec fn field_text(rec: Seq<Seq<char>>, j: int) -> Seq<char> {
    if j == 0 {
        rec[0]
    } else {
        trimmed(rec[j])
    }
}

/// Field `j` of the record exists and spells a time step.
pub open spec fn field_ok(rec: Seq<Seq<char>>, j: int) -> bool {
    j < rec.len() && spelled_time_step(field_text(rec, j)) is Some
}

/// The time step that field `j` of the record spells.
pub open spec fn field_value(rec: Seq<Seq<char>>, j: int) -> TimeStep {
    spelled_time_step(field_text(rec, j))->0
}

/// The four fields of the record (offset, execution time, deadline, period) spell time
/// steps.
pub open spec fn record_ok(rec: Seq<Seq<char>>) -> bool {
    forall|j: int| 0 <= j < 4 ==> #[trigger] field_ok(rec, j)
}

/// Every record is a task.
pub open spec fn records_ok(recs: Seq<Seq<Seq<char>>>) -> bool {
    forall|i: int| 0 <= i < recs.len() ==> #[trigger] record_ok(recs[i])
}

/// Field `j` of record `i` is the first one, reading records in order and fields from
/// left to right, that is missing or spells no time step.
pub open spec fn is_first_problem(recs: Seq<Seq<Seq<char>>>, i: int, j: int) -> bool {
    &&& 0 <= i < recs.len()
    &&& 0 <= j < 4
    &&& !field_ok(recs[i], j)
    &&& forall|k: int| 0 <= k < i ==> #[trigger] record_ok(recs[k])
    &&& forall|l: int| 0 <= l < j ==> #[trigger] field_ok(recs[i], l)
}

/// There is at most one first problem.
pub proof fn lemma_first_problem_unique(recs: Seq<Seq<Seq<char>>>, i: int, j: int, a: int, b: int)
    requires
        is_first_problem(recs, i, j),
        is_first_problem(recs, a, b),
    ensures
        a == i && b == j,
{
    if a < i {
        assert(record_ok(recs[a]));
        assert(field_ok(recs[a], b));
    } else if a > i {
        assert(record_ok(recs[i]));
        assert(field_ok(recs[i], j));
    } else if b < j {
        assert(field_ok(recs[i], b));
    } else if b > j {
        assert(field_ok(recs[i], j));
    }
}

/// When every record is a task there is no problem.
pub proof fn lemma_no_problem_when_all_ok(recs: Seq<Seq<Seq<char>>>)
    requires
        forall|k: int| 0 <= k < recs.len() ==> #[trigger] record_ok(recs[k]),
    ensures
        forall|a: int, b: int| !#[trigger] is_first_problem(recs, a, b),
{
    assert forall|a: int, b: int| !#[trigger] is_first_problem(recs, a, b) by {
        if is_first_problem(recs, a, b) {
            assert(record_ok(recs[a]));
            assert(field_ok(recs[a], b));
        }
    }
}

/// The tasks the records describe: record `i` is task `i + 1` with its offset, execution
/// time, deadline and period, no job released yet.
pub open spec fn tasks_from_records(recs: Seq<Seq<Seq<char>>>) -> Seq<TaskView> {
    Seq::new(
        recs.len(),
        |i: int|
            TaskView {
                id: (i + 1) as ID,
                offset: field_value(recs[i], 0),
                wcet: field_value(recs[i], 1),
                deadline: field_value(recs[i], 2),
                period: field_value(recs[i], 3),
                jobs_released: 0,
            },
    )
}

/// Field `j` of a record as a time step, if it spells one.
fn read_field(rec: &Vec<Vec<char>>, j: usize) -> (r: Option<TimeStep>)
    requires
        j < rec@.len(),
    ensures
        r == spelled_time_step(field_text(rec@.map_values(|f: Vec<char>| f@), j as int)),
{
    let ghost v = rec@.map_values(|f: Vec<char>| f@);
    assert(v[j as int] == rec@[j as int]@);
    if j == 0 {
        parse_time_step(&rec[0])
    } else {
        let t = trim(&rec[j]);
        parse_time_step(&t)
    }
}

/// The task set the records describe, one task per record numbered from one; the first
/// field that spells no time step is reported. The records must not lack a field before
/// the first such one: reading it would go out of bounds (`read_tasks` reports that case).
pub fn parse_task_records(records: &Vec<Vec<Vec<char>>>) -> (r: Result<TaskSet, TaskFileError>)
    requires
        forall|i: int, j: int|
            #[trigger] is_first_problem(record_views(records@), i, j) ==> j < record_views(
                records@,
            )[i].len(),
    ensures
        r is Ok <==> records_ok(record_views(records@)),
        r is Ok ==> r->Ok_0@ == tasks_from_records(record_views(records@)),
        forall|i: int, j: int|
            #[trigger] is_first_problem(record_views(records@), i, j) ==> (r matches Err(
                TaskFileError::InvalidNumber { record, field },
            ) && record == i && field == j),
{
    let ghost recs = record_views(records@);
    let n = records.len();
    let mut tasks: Vec<Task> = Vec::new();
    let mut i: usize = 0;
    while i < n
        invariant
            n == recs.len(),
            recs == record_views(records@),
            i <= n,
            forall|k: int| 0 <= k < i ==> #[trigger] record_ok(recs[k]),
            crate::task::task_views(tasks@) == tasks_from_records(recs).take(i as int),
            forall|a: int, b: int| #[trigger] is_first_problem(recs, a, b) ==> b < recs[a].len(),
        decreases n - i,
    {
        let rec = &records[i];
        assert(recs[i as int] == rec@.map_values(|f: Vec<char>| f@));
        let mut values: Vec<TimeStep> = Vec::new();
        let mut j: usize = 0;
        while j < 4
            invariant
                j <= 4,
                i < n,
                n == recs.len(),
                recs == record_views(records@),
                rec == &records@[i as int],
                recs[i as int] == rec@.map_values(|f: Vec<char>| f@),
                forall|k: int| 0 <= k < i ==> #[trigger] record_ok(recs[k]),
                forall|a: int, b: int| #[trigger] is_first_problem(recs, a, b) ==> b < recs[a].len(),
                values@.len() == j,
                forall|l: int| 0 <= l < j ==> #[trigger] field_ok(recs[i as int], l)
                    && values@[l] == field_value(recs[i as int], l),
            decreases 4 - j,
        {
            if j >= rec.len() {
                // The first problem would be this missing field, which `requires` rules out.
                proof {
                    assert(is_first_problem(recs, i as int, j as int));
                }
                assert(false);
                return Err(TaskFileError::MissingField { record: i, field: j });
            }
            match read_field(rec, j) {
                Some(v) => {
                    values.push(v);
                },
                None => {
                    proof {
                        assert(is_first_problem(recs, i as int, j as int));
                        assert forall|a: int, b: int| #[trigger]
                            is_first_problem(recs, a, b) implies a == i && b == j by {
                            lemma_first_problem_unique(recs, i as int, j as int, a, b);
                        }
                        assert(!records_ok(recs)) by {
                            assert(!record_ok(recs[i as int]));
                        }
                    }
                    return Err(TaskFileError::InvalidNumber { record: i, field: j });
                },
            }
            j = j + 1;
        }
        assert(field_ok(recs[i as int], 0) && field_ok(recs[i as int], 1));
        assert(field_ok(recs[i as int], 2) && field_ok(recs[i as int], 3));
        assert(record_ok(recs[i as int]));
        let task = Task::new(i + 1, values[0], values[1], values[2], values[3]);
        let ghost before = tasks@;
        tasks.push(task);
        proof {
            assert(tasks@ == before.push(task));
            assert(tasks_from_records(recs)[i as int] == task@);
            assert(crate::task::task_views(tasks@) =~= crate::task::task_views(before).push(task@));
            assert(tasks_from_records(recs).take(i + 1) =~= tasks_from_records(recs).take(
                i as int,
            ).push(task@));
        }
        i = i + 1;
    }
    assert(tasks_from_records(recs).take(n as int) =~= tasks_from_records(recs));
    proof {
        lemma_no_problem_when_all_ok(recs);
    }
    Ok(TaskSet::new(tasks))
}

/// Field `j` of record `i` is the first problem and it is a missing field.
pub open spec fn first_problem_is_missing(recs: Seq<Seq<Seq<char>>>) -> bool {
    exists|i: int, j: int| #[trigger] is_first_problem(recs, i, j) && j >= recs[i].len()
}

/// Whether some record, before any field that spells no time step, lacks a field.
fn missing_field(records: &Vec<Vec<Vec<char>>>) -> (r: Option<(usize, usize)>)
    ensures
        match r {
            Some((i, j)) => is_first_problem(record_views(records@), i as int, j as int) && j
                >= record_views(records@)[i as int].len(),
            None => !first_problem_is_missing(record_views(records@)),
        },
{
    let ghost recs = record_views(records@);
    let n = records.len();
    let mut i: usize = 0;
    while i < n
        invariant
            n == recs.len(),
            recs == record_views(records@),
            i <= n,
            forall|k: int| 0 <= k < i ==> #[trigger] record_ok(recs[k]),
        decreases n - i,
    {
        let rec = &records[i];
        assert(recs[i as int] == rec@.map_values(|f: Vec<char>| f@));
        let mut j: usize = 0;
        while j < 4
            invariant
                j <= 4,
                i < n,
                n == recs.len(),
                recs == record_views(records@),
                rec == &records@[i as int],
                recs[i as int] == rec@.map_values(|f: Vec<char>| f@),
                forall|k: int| 0 <= k < i ==> #[trigger] record_ok(recs[k]),
                forall|l: int| 0 <= l < j ==> #[trigger] field_ok(recs[i as int], l),
            decreases 4 - j,
        {
            if j >= rec.len() {
                assert(is_first_problem(recs, i as int, j as int));
                return Some((i, j));
            }
            if read_field(rec, j).is_none() {
                proof {
                    assert(is_first_problem(recs, i as int, j as int));
                    assert forall|a: int, b: int| #[trigger]
                        is_first_problem(recs, a, b) implies b < recs[a].len() by {
                        lemma_first_problem_unique(recs, i as int, j as int, a, b);
                    }
                }
                return None;
            }
            j = j + 1;
        }
        assert(record_ok(recs[i as int]));
        i = i + 1;
    }
    proof {
        lemma_no_problem_when_all_ok(recs);
    }
    None
}

/// Reads a task set from the bytes of a CSV file without header: one task per record,
/// numbered from one, as offset, execution time, deadline and period (all but the first
/// field trimmed). What comes first in reading order is reported: a missing field, a
/// field that spells no time step, or a failure of the CSV reader.
pub fn read_tasks(bytes: &[u8]) -> (r: Result<TaskSet, TaskFileError>)
    ensures
        ({
            let (recs, failed) = csv_records(bytes@);
            &&& r is Ok <==> records_ok(recs) && !failed
            &&& r is Ok ==> r->Ok_0@ == tasks_from_records(recs)
            &&& records_ok(recs) && failed ==> (r matches Err(TaskFileError::Csv(_)))
            &&& forall|i: int, j: int| #[trigger]
                is_first_problem(recs, i, j) ==> (if j < recs[i].len() {
                    (r matches Err(TaskFileError::InvalidNumber { record, field }) && record == i
                        && field == j)
                } else {
                    (r matches Err(TaskFileError::MissingField { record, field }) && record == i
                        && field == j)
                })
        }),
{
    let (records, failure) = read_records(bytes);
    let ghost recs = record_views(records@);
    match missing_field(&records) {
        Some((i, j)) => {
            proof {
                assert(!record_ok(recs[i as int]));
                assert forall|a: int, b: int| #[trigger]
                    is_first_problem(recs, a, b) implies a == i && b == j by {
                    lemma_first_problem_unique(recs, i as int, j as int, a, b);
                }
            }
            Err(TaskFileError::MissingField { record: i, field: j })
        },
        None => match parse_task_records(&records) {
            Ok(tasks) => match failure {
                Some(e) => Err(TaskFileError::Csv(e)),
                None => Ok(tasks),
            },
            Err(e) => Err(e),
        },
    }
}

} // verus!
