//! The texts that explain a report to the student.

use crate::course::{texts, Course, CourseModel};
use crate::text::{credit_text, decimal, push_credit, push_decimal};
use vstd::prelude::*;

verus! {

/// One point, in half points.
pub const SINGLE: u64 = 2;

/// Half a point, in half points.
pub const HALF: u64 = 1;

/// The text for a record that stands for `course` by a common replacement.
pub open spec fn common_replacements_text(course: CourseModel) -> Seq<char> {
    "הנחנו כי קורס זה מחליף את הקורס "@ + course.name + " ("@ + course.id
        + ") בעקבות החלפות נפוצות. שימו לב כי נדרש אישור מהרכזות בשביל החלפה זו"@
}

/// The text for a record that stands for `course` by a common replacement.
pub fn common_replacements_msg(course: &Course) -> (msg: String)
    ensures
        msg@ == common_replacements_text(course@),
{
    let mut msg = String::from_str("הנחנו כי קורס זה מחליף את הקורס ");
    msg.append(course.name.as_str());
    msg.append(" (");
    msg.append(course.id.as_str());
    msg.append(") בעקבות החלפות נפוצות. שימו לב כי נדרש אישור מהרכזות בשביל החלפה זו");
    msg
}

/// The text for a record that stands for `course` by a replacement of the
/// catalog.
pub open spec fn catalog_replacements_text(course: CourseModel) -> Seq<char> {
    "קורס זה מחליף את הקורס "@ + course.name + " ("@ + course.id + ")"@
}

/// The text for a record that stands for `course` by a replacement of the
/// catalog.
pub fn catalog_replacements_msg(course: &Course) -> (msg: String)
    ensures
        msg@ == catalog_replacements_text(course@),
{
    let mut msg = String::from_str("קורס זה מחליף את הקורס ");
    msg.append(course.name.as_str());
    msg.append(" (");
    msg.append(course.id.as_str());
    msg.append(")");
    msg
}

/// The text for `overflow` half points of credit that moved from the bank
/// `from` to the bank `to`.
pub open spec fn credit_overflow_text(overflow: nat, from: Seq<char>, to: Seq<char>) -> Seq<char> {
    if overflow == SINGLE {
        "נקודה אחת עברה מ"@ + from + " ל"@ + to
    } else if overflow == HALF {
        "חצי נקודה עברה מ"@ + from + " ל"@ + to
    } else {
        "עברו "@ + credit_text(overflow) + " נקודות מ"@ + from + " ל"@ + to
    }
}

/// The text for `overflow` half points of credit that moved from the bank
/// `from` to the bank `to`.
pub fn credit_overflow_msg(overflow: u64, from: &str, to: &str) -> (msg: String)
    ensures
        msg@ == credit_overflow_text(overflow as nat, from@, to@),
{
    let mut msg;
    if overflow == SINGLE {
        msg = String::from_str("נקודה אחת עברה מ");
    } else if overflow == HALF {
        msg = String::from_str("חצי נקודה עברה מ");
    } else {
        msg = String::from_str("עברו ");
        push_credit(&mut msg, overflow);
        msg.append(" נקודות מ");
    }
    msg.append(from);
    msg.append(" ל");
    msg.append(to);
    msg
}

/// The text that says that the credit of the bank `from` counts for the bank
/// `to`.
pub open spec fn credit_overflow_detailed_text(from: Seq<char>, to: Seq<char>) -> Seq<char> {
    "הנקודות שבוצעו ב"@ + from + " נספרות תחת "@ + to
}

/// The text that says that the credit of the bank `from` counts for the bank
/// `to`.
pub fn credit_overflow_detailed_msg(from: &str, to: &str) -> (msg: String)
    ensures
        msg@ == credit_overflow_detailed_text(from@, to@),
{
    let mut msg = String::from_str("הנקודות שבוצעו ב");
    msg.append(from);
    msg.append(" נספרות תחת ");
    msg.append(to);
    msg
}

/// The text for `overflow` courses that the bank `from` did not need and that
/// count for the bank `to`.
pub open spec fn courses_overflow_text(overflow: nat, from: Seq<char>, to: Seq<char>) -> Seq<
    char,
> {
    if overflow == 1 {
        "ביצעת יותר קורסים ממה שנדרש ב"@ + from + ", הקורס העודף נספר תחת הדרישה "@ + to
    } else {
        "ביצעת יותר קורסים ממה שנדרש ב"@ + from + ", "@ + decimal(overflow)
            + " הקורסים העודפים נספרים תחת הדרישה "@ + to
    }
}

/// The text for `overflow` courses that the bank `from` did not need and that
/// count for the bank `to`.
pub fn courses_overflow_msg(overflow: u64, from: &str, to: &str) -> (msg: String)
    ensures
        msg@ == courses_overflow_text(overflow as nat, from@, to@),
{
    let mut msg = String::from_str("ביצעת יותר קורסים ממה שנדרש ב");
    msg.append(from);
    if overflow == 1 {
        msg.append(", הקורס העודף נספר תחת הדרישה ");
    } else {
        msg.append(", ");
        push_decimal(&mut msg, overflow);
        msg.append(" הקורסים העודפים נספרים תחת הדרישה ");
    }
    msg.append(to);
    msg
}

/// The text for `overflow` half points that the bank `from` fell short by and
/// that the bank `to` now requires in addition.
pub open spec fn missing_credit_text(overflow: nat, from: Seq<char>, to: Seq<char>) -> Seq<char> {
    if overflow == SINGLE {
        "סך הנקודות של הקורסים שלקחת ב"@ + from
            + " נמוך מהדרישה המקורית, לכן נקודה אחת התווספה לדרישה של "@ + to
    } else {
        "סך הנקודות של הקורסים שלקחת ב"@ + from + " נמוך מהדרישה המקורית, לכן "@ + credit_text(
            overflow,
        ) + " נקודות התווספו לדרישה של "@ + to
    }
}

/// The text for `overflow` half points that the bank `from` fell short by and
/// that the bank `to` now requires in addition.
pub fn missing_credit_msg(overflow: u64, from: &str, to: &str) -> (msg: String)
    ensures
        msg@ == missing_credit_text(overflow as nat, from@, to@),
{
    let mut msg = String::from_str("סך הנקודות של הקורסים שלקחת ב");
    msg.append(from);
    if overflow == SINGLE {
        msg.append(" נמוך מהדרישה המקורית, לכן נקודה אחת התווספה לדרישה של ");
    } else {
        msg.append(" נמוך מהדרישה המקורית, לכן ");
        push_credit(&mut msg, overflow);
        msg.append(" נקודות התווספו לדרישה של ");
    }
    msg.append(to);
    msg
}

/// The names from the last to the first, with a comma and a space between
/// each two.
pub open spec fn listed_from_back(names: Seq<Seq<char>>) -> Seq<char>
    decreases names.len(),
{
    if names.len() == 0 {
        Seq::empty()
    } else if names.len() == 1 {
        names[0]
    } else {
        names.last() + ", "@ + listed_from_back(names.drop_last())
    }
}

/// Appends the names from the last to the first.
fn push_listed_from_back(msg: &mut String, mut names: Vec<String>)
    ensures
        final(msg)@ == old(msg)@ + listed_from_back(texts(names@)),
{
    let ghost all = texts(names@);
    while names.len() > 0
        invariant
            msg@ + listed_from_back(texts(names@)) == old(msg)@ + listed_from_back(all),
        decreases names.len(),
    {
        let ghost before = texts(names@);
        let ghost head = msg@;
        let name = names.pop().unwrap();
        assert(texts(names@) =~= before.drop_last());
        assert(name@ == before.last());
        msg.append(name.as_str());
        if names.len() > 0 {
            msg.append(", ");
            assert(msg@ + listed_from_back(texts(names@)) =~= head + listed_from_back(before));
        } else {
            assert(msg@ + listed_from_back(texts(names@)) =~= head + listed_from_back(before));
        }
    }
    assert(msg@ + listed_from_back(texts(names@)) =~= msg@);
}

/// The text that names the courses of a completed chain, last course first.
pub open spec fn completed_chain_text(chain: Seq<Seq<char>>) -> Seq<char> {
    "השלמת את השרשרת: "@ + listed_from_back(chain)
}

/// The text that names the courses of a completed chain, last course first.
pub fn completed_chain_msg(chain: Vec<String>) -> (msg: String)
    ensures
        msg@ == completed_chain_text(texts(chain@)),
{
    let mut msg = String::from_str("השלמת את השרשרת: ");
    push_listed_from_back(&mut msg, chain);
    msg
}

/// The text that names the completed groups, last group first, and says how
/// many are needed.
pub open spec fn completed_specialization_groups_text(groups: Seq<Seq<char>>, needed: nat) -> Seq<
    char,
> {
    if groups.len() == 0 {
        "לא השלמת אף קבוצת התמחות"@ + listed_from_back(groups)
    } else if groups.len() == 1 {
        "השלמת קבוצת התמחות אחת (מתוך "@ + decimal(needed) + "): "@ + listed_from_back(groups)
    } else {
        "השלמת "@ + decimal(groups.len()) + " (מתוך "@ + decimal(needed) + ") קבוצות התמחות: "@
            + listed_from_back(groups)
    }
}

/// The text that names the completed groups, last group first, and says how
/// many are needed.
pub fn completed_specialization_groups_msg(groups: Vec<String>, needed: usize) -> (msg: String)
    ensures
        msg@ == completed_specialization_groups_text(texts(groups@), needed as nat),
{
    let mut msg;
    if groups.len() == 0 {
        msg = String::from_str("לא השלמת אף קבוצת התמחות");
    } else if groups.len() == 1 {
        msg = String::from_str("השלמת קבוצת התמחות אחת (מתוך ");
        push_decimal(&mut msg, needed as u64);
        msg.append("): ");
    } else {
        msg = String::from_str("השלמת ");
        push_decimal(&mut msg, groups.len() as u64);
        msg.append(" (מתוך ");
        push_decimal(&mut msg, needed as u64);
        msg.append(") קבוצות התמחות: ");
    }
    push_listed_from_back(&mut msg, groups);
    msg
}

/// The text for `credit` half points that no bank needed.
pub open spec fn credit_leftovers_text(credit: nat) -> Seq<char> {
    if credit == 0 {
        "אין לך נקודות עודפות"@
    } else if credit == SINGLE {
        "יש לך נקודה עודפת אחת"@
    } else if credit == HALF {
        "יש לך חצי נקודה עודפת"@
    } else {
        "יש לך "@ + credit_text(credit) + " נקודות עודפות"@
    }
}

/// The text for `credit` half points that no bank needed.
pub fn credit_leftovers_msg(credit: u64) -> (msg: String)
    ensures
        msg@ == credit_leftovers_text(credit as nat),
{
    if credit == 0 {
        String::from_str("אין לך נקודות עודפות")
    } else if credit == SINGLE {
        String::from_str("יש לך נקודה עודפת אחת")
    } else if credit == HALF {
        String::from_str("יש לך חצי נקודה עודפת")
    } else {
        let mut msg = String::from_str("יש לך ");
        push_credit(&mut msg, credit);
        msg.append(" נקודות עודפות");
        msg
    }
}

/// The warning for a student who is exempt from English courses and lacks
/// courses taught in English.
pub fn english_requirement_for_exempt_students_msg() -> (msg: String)
    ensures
        msg@
            == "אזהרה: לא השלמת את דרישת האנגלית לסיום התואר. סטודנטים שהתחילו את לימודיהם החל מתשפ\"ב נדרשים להשלים שני קורסי תוכן באנגלית."@,
{
    String::from_str(
        "אזהרה: לא השלמת את דרישת האנגלית לסיום התואר. סטודנטים שהתחילו את לימודיהם החל מתשפ\"ב נדרשים להשלים שני קורסי תוכן באנגלית.",
    )
}

/// The warning for a student of advanced technical English who lacks a course
/// taught in English.
pub fn english_requirement_for_technical_advanced_b_students_msg() -> (msg: String)
    ensures
        msg@
            == "אזהרה: לא השלמת את דרישת האנגלית לסיום התואר. סטודנטים שהתחילו את לימודיהם החל מתשפ\"ב נדרשים להשלים קורס תוכן באנגלית בנוסף לקורס אנגלית טכנית מתקדמים ב "@,
{
    String::from_str(
        "אזהרה: לא השלמת את דרישת האנגלית לסיום התואר. סטודנטים שהתחילו את לימודיהם החל מתשפ\"ב נדרשים להשלים קורס תוכן באנגלית בנוסף לקורס אנגלית טכנית מתקדמים ב ",
    )
}

/// The text for a student of medicine who repeated every course too often.
pub fn medicine_course_retake_limit_exceeded_error_message() -> (msg: String)
    ensures
        msg@ == "פסילה: לא ניתן לסגור את התואר. חרגת מכמות הפעמים המותרת לחזור על כל קורס"@,
{
    String::from_str("פסילה: לא ניתן לסגור את התואר. חרגת מכמות הפעמים המותרת לחזור על כל קורס")
}

/// The text for a student of medicine who repeated a course too often.
pub fn medicine_total_retake_limit_exceeded_error_message() -> (msg: String)
    ensures
        msg@ == "פסילה: לא ניתן לסגור את התואר. חרגת מכמות הפעמים המותרת לחזור על קורס"@,
{
    String::from_str("פסילה: לא ניתן לסגור את התואר. חרגת מכמות הפעמים המותרת לחזור על קורס")
}

/// The text for transfer rules that run in a circle through `bank_in_cycle`.
pub open spec fn cyclic_credit_transfer_graph_text(bank_in_cycle: Seq<char>) -> Seq<char> {
    "קיימת תלות מעגלית במעברי הנקודות שנקבעו. התלות המעגלית מתחילה ונגמרת ב"@ + bank_in_cycle
}

/// The text for transfer rules that run in a circle through `bank_in_cycle`.
pub fn cyclic_credit_transfer_graph(bank_in_cycle: &str) -> (msg: String)
    ensures
        msg@ == cyclic_credit_transfer_graph_text(bank_in_cycle@),
{
    let mut msg = String::from_str(
        "קיימת תלות מעגלית במעברי הנקודות שנקבעו. התלות המעגלית מתחילה ונגמרת ב",
    );
    msg.append(bank_in_cycle);
    msg
}

/// The text for a catalog whose transfer rules cannot be laid out.
pub fn build_credit_transfer_graph_failed() -> (msg: String)
    ensures
        msg@ == "בניית הגרף נכשלה"@,
{
    String::from_str("בניית הגרף נכשלה")
}

/// The text for a course that the registry does not hold.
pub fn cannot_find_course() -> (msg: String)
    ensures
        msg@ == "שגיאה - קורס לא נמצא"@,
{
    String::from_str("שגיאה - קורס לא נמצא")
}

} // verus!
