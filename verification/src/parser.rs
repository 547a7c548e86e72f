//! Reads the grade sheet that a student copied from the registrar's page.
//!
//! The sheet starts with its title and holds the line that ends it. Between
//! them, a line that names a term starts a semester, and a line of the form
//! `number name credit grade` is a course.

use crate::course::{
    clone_text, models, models_push, text_of, Course, CourseModel, CourseState, CourseStatus,
    Grade, StatusModel,
};
use crate::text::{
    after_last, after_last_found, all_digits, char_flags, chars_of, credit_text, digit_value,
    digits_value, digits_value_grows, find_after_last, find_char, first_index, first_true_found,
    half_points, matches_at, occurs, occurs_at, occurs_in, only_digits, parse_half_points,
    push_credit, string_of, value_of_digit,
};
use vstd::prelude::*;

verus! {

/// Why a text is no grade sheet.
#[derive(Clone, Copy, Debug, PartialEq, Eq, Structural)]
pub enum ParseError {
    /// The text does not start with the title of a grade sheet, or lacks the
    /// line that ends one.
    MalformedFormat,
}

/// The title of a grade sheet.
pub open spec fn header() -> Seq<char> {
    "גיליון ציונים"@
}

/// The line that ends a grade sheet.
pub open spec fn footer() -> Seq<char> {
    "סוף גיליון ציונים"@
}

/// The word that names a spring term.
pub open spec fn spring() -> Seq<char> {
    "אביב"@
}

/// The word that names a summer term.
pub open spec fn summer() -> Seq<char> {
    "קיץ"@
}

/// The word that names a winter term.
pub open spec fn winter() -> Seq<char> {
    "חורף"@
}

/// The grade of a course that was passed without a number.
pub open spec fn passed_word() -> Seq<char> {
    "עבר"@
}

/// The grade of a course that was failed without a number.
pub open spec fn failed_word() -> Seq<char> {
    "נכשל"@
}

/// Whether the text starts with the title and holds the closing line.
pub open spec fn envelope_ok(text: Seq<char>) -> bool {
    occurs_at(text, header(), 0) && occurs(text, footer())
}

/// The semester that the lines read so far have reached: its ordinal in half
/// steps, and its label.
pub struct SemesterModel {
    pub counter: nat,
    pub label: Option<Seq<char>>,
}

/// The term that the line names: spring before summer before winter.
pub open spec fn term_of(line: Seq<char>) -> Option<Seq<char>> {
    if occurs(line, spring()) {
        Some(spring())
    } else if occurs(line, summer()) {
        Some(summer())
    } else if occurs(line, winter()) {
        Some(winter())
    } else {
        None
    }
}

/// The semester after the line: a line that names a term starts the next
/// semester. A summer is half a step behind the semester before it, and the
/// semester after a summer is half a step behind the summer; any other
/// semester is a whole step behind the one before. The label is the term, an
/// underscore and the ordinal.
pub open spec fn semester_after(sem: SemesterModel, line: Seq<char>) -> SemesterModel {
    match term_of(line) {
        Some(term) => {
            let counter = if occurs(line, summer()) || sem.counter % 2 == 1 {
                sem.counter + 1
            } else {
                sem.counter + 2
            };
            SemesterModel { counter, label: Some(term + seq!['_'] + credit_text(counter)) }
        },
        None => sem,
    }
}

/// Which characters of a line are read: all but asterisks and carriage
/// returns.
pub open spec fn kept() -> spec_fn(char) -> bool {
    |c: char| c != '*' && c != '\r'
}

/// Whether the word is a course number: five to eight digits.
pub open spec fn is_course_number(word: Seq<char>) -> bool {
    all_digits(word) && 5 <= word.len() <= 8
}

/// The grade that the word writes: passed or failed, or a number up to 100.
/// Any other word writes none.
pub open spec fn grade_of(word: Seq<char>) -> Option<Grade> {
    if word == passed_word() {
        Some(Grade::Binary(true))
    } else if word == failed_word() {
        Some(Grade::Binary(false))
    } else if word.len() > 0 && all_digits(word) && digits_value(word) <= 100 {
        Some(Grade::Numeric(digits_value(word) as u8))
    } else {
        None
    }
}

/// The record of a course line.
pub open spec fn record_of(
    id: Seq<char>,
    name: Seq<char>,
    credit: nat,
    grade: Option<Grade>,
    semester: Option<Seq<char>>,
) -> StatusModel {
    let read = StatusModel {
        semester,
        grade,
        ..StatusModel::blank(CourseModel { id, credit, name })
    };
    StatusModel {
        state: Some(
            if read.passed() {
                CourseState::Complete
            } else {
                CourseState::NotComplete
            },
        ),
        ..read
    }
}

/// The record that the line gives, if it is a course line: without the
/// characters that are not read, it starts with a course number, its last word
/// is the grade and the word before that the credit; what stands between the
/// number and the credit is the name.
pub open spec fn course_record(line: Seq<char>, semester: Option<Seq<char>>) -> Option<StatusModel> {
    let clean = line.filter(kept());
    let id_end = first_index(clean, ' ');
    let grade_start = after_last(clean, ' ');
    let credit_start = if grade_start > 0 {
        after_last(clean.take(grade_start - 1), ' ')
    } else {
        0
    };
    if grade_start > 0 && credit_start > 0 {
        let id = clean.take(id_end);
        let name = if id_end + 1 < credit_start {
            clean.subrange(id_end + 1, credit_start - 1)
        } else {
            Seq::empty()
        };
        let credit = half_points(clean.subrange(credit_start, grade_start - 1));
        let grade = grade_of(clean.skip(grade_start));
        if is_course_number(id) && credit is Some {
            Some(record_of(id, name, credit->0, grade, semester))
        } else {
            None
        }
    } else {
        None
    }
}

/// The records of the text, line by line from the semester `sem` on.
pub open spec fn parsed(text: Seq<char>, sem: SemesterModel) -> Seq<StatusModel>
    decreases text.len(),
{
    let end = first_index(text, '\n');
    let line = text.take(end);
    let now = semester_after(sem, line);
    let here = match course_record(line, now.label) {
        Some(record) => seq![record],
        None => Seq::empty(),
    };
    if 0 <= end < text.len() {
        here + parsed(text.skip(end + 1), now)
    } else {
        here
    }
}

/// The semester before the first line.
pub open spec fn no_semester() -> SemesterModel {
    SemesterModel { counter: 0, label: None }
}

/// A grade sheet with a character put before it is no grade sheet.
pub proof fn stray_prefix_is_rejected(text: Seq<char>, c: char)
    requires
        occurs_at(text, header(), 0),
    ensures
        !envelope_ok(seq![c] + text),
{
    reveal_strlit("גיליון ציונים");
    let shifted = seq![c] + text;
    if occurs_at(shifted, header(), 0) {
        let h = header();
        assert(text.subrange(0, h.len() as int)[0] == h[0]);
        assert(shifted.subrange(0, h.len() as int)[1] == h[1]);
        assert(shifted[1] == text[0]);
    }
}

/// The characters of `text[from..to]` that are read.
fn clean_line(text: &Vec<char>, from: usize, to: usize) -> (out: Vec<char>)
    requires
        from <= to <= text.len(),
    ensures
        out@ == text@.subrange(from as int, to as int).filter(kept()),
{
    let ghost line = text@.subrange(from as int, to as int);
    let mut out: Vec<char> = Vec::new();
    assert(line.take(0).filter(kept()) =~= Seq::empty()) by {
        line.take(0).lemma_filter_len(kept());
    }
    let mut k: usize = from;
    while k < to
        invariant
            from <= k <= to <= text.len(),
            line == text@.subrange(from as int, to as int),
            out@ == line.take(k - from).filter(kept()),
        decreases to - k,
    {
        proof {
            assert(line.take(k + 1 - from) == line.take(k - from).push(text@[k as int]));
            line.take(k - from).lemma_filter_push(text@[k as int], kept());
        }
        let c = text[k];
        if c != '*' && c != '\r' {
            out.push(c);
        }
        k += 1;
    }
    assert(line.take(k - from) == line);
    out
}

/// Whether `word[from..to]` is `other`.
fn is_word(word: &Vec<char>, from: usize, to: usize, other: &Vec<char>) -> (out: bool)
    requires
        from <= to <= word.len(),
    ensures
        out == (word@.subrange(from as int, to as int) == other@),
{
    let ghost s = word@.subrange(from as int, to as int);
    if to - from != other.len() {
        return false;
    }
    let same = matches_at(word, from, to, other, 0);
    assert(s.subrange(0, s.len() as int) == s);
    same
}

/// Reads `word[from..to]` as a grade.
fn parse_grade(
    word: &Vec<char>,
    from: usize,
    to: usize,
    passed: &Vec<char>,
    failed: &Vec<char>,
) -> (out: Option<Grade>)
    requires
        from <= to <= word.len(),
        passed@ == passed_word(),
        failed@ == failed_word(),
    ensures
        out == grade_of(word@.subrange(from as int, to as int)),
{
    let ghost s = word@.subrange(from as int, to as int);
    if is_word(word, from, to, passed) {
        return Some(Grade::Binary(true));
    }
    if is_word(word, from, to, failed) {
        return Some(Grade::Binary(false));
    }
    if from == to {
        return None;
    }
    let mut acc: u8 = 0;
    let mut k: usize = from;
    while k < to
        invariant
            from <= k <= to <= word.len(),
            s == word@.subrange(from as int, to as int),
            s.len() > 0,
            s != passed_word(),
            s != failed_word(),
            acc == digits_value(s.take(k - from)),
            all_digits(s.take(k - from)),
            acc <= 100,
        decreases to - k,
    {
        let ghost next = s.take(k + 1 - from);
        assert(next.drop_last() == s.take(k - from));
        assert(next.last() == word@[k as int]);
        match value_of_digit(word[k]) {
            Some(d) => {
                if acc > 10 || acc * 10 + d > 100 {
                    proof {
                        digits_value_grows(s, k + 1 - from);
                    }
                    return None;
                }
                acc = acc * 10 + d;
                k += 1;
            },
            None => {
                assert(digit_value(s[k - from]) is None);
                return None;
            },
        }
    }
    assert(s.take(k - from) == s);
    Some(Grade::Numeric(acc))
}

/// Reads `text[from..to]` as a course line.
fn parse_course_line(
    text: &Vec<char>,
    from: usize,
    to: usize,
    semester: &Option<String>,
    passed: &Vec<char>,
    failed: &Vec<char>,
) -> (out: Option<CourseStatus>)
    requires
        from <= to <= text.len(),
        passed@ == passed_word(),
        failed@ == failed_word(),
    ensures
        match out {
            Some(record) => course_record(
                text@.subrange(from as int, to as int),
                text_of(*semester),
            ) == Some(record@),
            None => course_record(text@.subrange(from as int, to as int), text_of(*semester))
                is None,
        },
{
    let clean = clean_line(text, from, to);
    let len = clean.len();
    assert(clean@.subrange(0, len as int) == clean@);
    let id_end = find_char(&clean, 0, len, ' ');
    let grade_start = find_after_last(&clean, 0, len, ' ');
    if grade_start == 0 {
        return None;
    }
    assert(clean@.subrange(0, grade_start - 1) == clean@.take(grade_start - 1));
    let credit_start = find_after_last(&clean, 0, grade_start - 1, ' ');
    if credit_start == 0 {
        return None;
    }
    proof {
        after_last_found(clean@.take(grade_start - 1), ' ');
        first_true_found(char_flags(clean@, ' '));
        assert(clean@.take(grade_start - 1)[credit_start - 1] == clean@[credit_start - 1]);
        assert(char_flags(clean@, ' ')[credit_start - 1]);
        assert(clean@.subrange(0, id_end as int) == clean@.take(id_end as int));
        assert(clean@.subrange(grade_start as int, len as int) == clean@.skip(grade_start as int));
    }
    if id_end < 5 || id_end > 8 {
        return None;
    }
    if !only_digits(&clean, 0, id_end) {
        return None;
    }
    let credit = match parse_half_points(&clean, credit_start, grade_start - 1) {
        Some(credit) => credit,
        None => {
            return None;
        },
    };
    let grade = parse_grade(&clean, grade_start, len, passed, failed);
    let name = if id_end + 1 < credit_start {
        string_of(&clean, id_end + 1, credit_start - 1)
    } else {
        String::new()
    };
    let mut record = CourseStatus {
        course: Course { id: string_of(&clean, 0, id_end), credit, name },
        state: None,
        semester: clone_text(semester),
        grade,
        course_type: None,
        additional_msg: None,
        modified: false,
    };
    record.set_state();
    Some(record)
}

/// Reads a grade sheet: one record for each course line, in the order of the
/// lines, each with the semester that the lines before it have reached. A text
/// that is no grade sheet is refused.
pub fn parse_copy_paste_data(data: &str) -> (out: Result<Vec<CourseStatus>, ParseError>)
    ensures
        match out {
            Ok(records) => envelope_ok(data@) && models(records@) == parsed(data@, no_semester()),
            Err(e) => !envelope_ok(data@) && e == ParseError::MalformedFormat,
        },
{
    let text = chars_of(data);
    let len = text.len();
    let header_chars = chars_of("גיליון ציונים");
    let footer_chars = chars_of("סוף גיליון ציונים");
    let spring_chars = chars_of("אביב");
    let summer_chars = chars_of("קיץ");
    let winter_chars = chars_of("חורף");
    let passed_chars = chars_of("עבר");
    let failed_chars = chars_of("נכשל");
    proof {
        reveal_strlit("אביב");
        reveal_strlit("קיץ");
        reveal_strlit("חורף");
        assert(text@.subrange(0, len as int) == text@);
    }
    if !matches_at(&text, 0, len, &header_chars, 0) || !occurs_in(&text, 0, len, &footer_chars) {
        return Err(ParseError::MalformedFormat);
    }
    let ghost all = parsed(text@, no_semester());
    let mut out: Vec<CourseStatus> = Vec::new();
    let mut counter: u64 = 0;
    let mut label: Option<String> = None;
    let mut pos: usize = 0;
    let mut done = false;
    assert(text@.skip(0) == text@);
    assert(models(out@) + all =~= all);
    while !done
        invariant
            pos <= len == text.len(),
            !done ==> counter <= pos,
            spring_chars@ == spring(),
            summer_chars@ == summer(),
            winter_chars@ == winter(),
            spring_chars@.len() == 4,
            summer_chars@.len() == 3,
            winter_chars@.len() == 4,
            passed_chars@ == passed_word(),
            failed_chars@ == failed_word(),
            !done ==> models(out@) + parsed(
                text@.skip(pos as int),
                SemesterModel { counter: counter as nat, label: text_of(label) },
            ) == all,
            done ==> models(out@) == all,
        decreases (if done { 0int } else { len - pos + 1 }),
    {
        let ghost rest = text@.skip(pos as int);
        let ghost sem = SemesterModel { counter: counter as nat, label: text_of(label) };
        let ghost before = models(out@);
        assert(text@.subrange(pos as int, len as int) == rest);
        let end = find_char(&text, pos, len, '\n');
        let ghost line = text@.subrange(pos as int, end as int);
        assert(rest.take(end - pos) == line);
        let in_spring = occurs_in(&text, pos, end, &spring_chars);
        let in_summer = occurs_in(&text, pos, end, &summer_chars);
        let in_winter = occurs_in(&text, pos, end, &winter_chars);
        if in_spring || in_summer || in_winter {
            assert(line.len() >= 3);
            counter = if in_summer || counter % 2 == 1 {
                counter + 1
            } else {
                counter + 2
            };
            let mut name = if in_spring {
                String::from_str("אביב")
            } else if in_summer {
                String::from_str("קיץ")
            } else {
                String::from_str("חורף")
            };
            name.push('_');
            push_credit(&mut name, counter);
            assert(name@ =~= term_of(line)->0 + seq!['_'] + credit_text(counter as nat));
            label = Some(name);
        }
        let ghost now = semester_after(sem, line);
        assert(now == SemesterModel { counter: counter as nat, label: text_of(label) });
        match parse_course_line(&text, pos, end, &label, &passed_chars, &failed_chars) {
            Some(record) => {
                proof {
                    models_push(out@, record);
                }
                out.push(record);
                assert(models(out@) =~= before + seq![record@]);
            },
            None => {
                assert(models(out@) =~= before + Seq::<StatusModel>::empty());
            },
        }
        if end < len {
            assert(rest.skip(end - pos + 1) == text@.skip(end + 1));
            pos = end + 1;
            assert(models(out@) + parsed(text@.skip(pos as int), now) =~= all);
        } else {
            done = true;
        }
    }
    Ok(out)
}

} // verus!
