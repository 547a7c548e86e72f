use degree_planner::course::Course;
use degree_planner::messages;

fn course() -> Course {
    Course { id: "104031".to_string(), credit: 11, name: "infi1m".to_string() }
}

#[test]
fn replacement_messages_name_the_course() {
    assert_eq!(
        messages::common_replacements_msg(&course()),
        "הנחנו כי קורס זה מחליף את הקורס infi1m (104031) בעקבות החלפות נפוצות. שימו לב כי נדרש אישור מהרכזות בשביל החלפה זו"
    );
    assert_eq!(
        messages::catalog_replacements_msg(&course()),
        "קורס זה מחליף את הקורס infi1m (104031)"
    );
}

#[test]
fn credit_overflow_message_has_three_forms() {
    assert_eq!(messages::credit_overflow_msg(2, "א", "ב"), "נקודה אחת עברה מא לב");
    assert_eq!(messages::credit_overflow_msg(1, "א", "ב"), "חצי נקודה עברה מא לב");
    assert_eq!(messages::credit_overflow_msg(3, "א", "ב"), "עברו 1.5 נקודות מא לב");
    assert_eq!(messages::credit_overflow_msg(12, "א", "ב"), "עברו 6 נקודות מא לב");
    assert_eq!(messages::credit_overflow_msg(0, "א", "ב"), "עברו 0 נקודות מא לב");
    assert_eq!(messages::credit_overflow_msg(2001, "א", "ב"), "עברו 1000.5 נקודות מא לב");
}

#[test]
fn credit_overflow_detailed_message() {
    assert_eq!(
        messages::credit_overflow_detailed_msg("פרויקט", "רשימה א"),
        "הנקודות שבוצעו בפרויקט נספרות תחת רשימה א"
    );
}

#[test]
fn courses_overflow_message_tells_one_from_many() {
    assert_eq!(
        messages::courses_overflow_msg(1, "א", "ב"),
        "ביצעת יותר קורסים ממה שנדרש בא, הקורס העודף נספר תחת הדרישה ב"
    );
    assert_eq!(
        messages::courses_overflow_msg(12, "א", "ב"),
        "ביצעת יותר קורסים ממה שנדרש בא, 12 הקורסים העודפים נספרים תחת הדרישה ב"
    );
}

#[test]
fn missing_credit_message_tells_one_point_from_others() {
    assert_eq!(
        messages::missing_credit_msg(2, "חובה", "רשימה ב"),
        "סך הנקודות של הקורסים שלקחת בחובה נמוך מהדרישה המקורית, לכן נקודה אחת התווספה לדרישה של רשימה ב"
    );
    assert_eq!(
        messages::missing_credit_msg(1, "חובה", "רשימה ב"),
        "סך הנקודות של הקורסים שלקחת בחובה נמוך מהדרישה המקורית, לכן 0.5 נקודות התווספו לדרישה של רשימה ב"
    );
    assert_eq!(
        messages::missing_credit_msg(7, "חובה", "רשימה ב"),
        "סך הנקודות של הקורסים שלקחת בחובה נמוך מהדרישה המקורית, לכן 3.5 נקודות התווספו לדרישה של רשימה ב"
    );
}

#[test]
fn completed_chain_message_lists_from_the_back() {
    assert_eq!(messages::completed_chain_msg(vec![]), "השלמת את השרשרת: ");
    assert_eq!(messages::completed_chain_msg(vec!["a".to_string()]), "השלמת את השרשרת: a");
    assert_eq!(
        messages::completed_chain_msg(vec!["a".to_string(), "b".to_string(), "c".to_string()]),
        "השלמת את השרשרת: c, b, a"
    );
}

#[test]
fn completed_groups_message_has_three_forms() {
    assert_eq!(
        messages::completed_specialization_groups_msg(vec![], 2),
        "לא השלמת אף קבוצת התמחות"
    );
    assert_eq!(
        messages::completed_specialization_groups_msg(vec!["x".to_string()], 2),
        "השלמת קבוצת התמחות אחת (מתוך 2): x"
    );
    assert_eq!(
        messages::completed_specialization_groups_msg(vec!["x".to_string(), "y".to_string()], 10),
        "השלמת 2 (מתוך 10) קבוצות התמחות: y, x"
    );
}

#[test]
fn credit_leftovers_message_has_four_forms() {
    assert_eq!(messages::credit_leftovers_msg(0), "אין לך נקודות עודפות");
    assert_eq!(messages::credit_leftovers_msg(2), "יש לך נקודה עודפת אחת");
    assert_eq!(messages::credit_leftovers_msg(1), "יש לך חצי נקודה עודפת");
    assert_eq!(messages::credit_leftovers_msg(11), "יש לך 5.5 נקודות עודפות");
    assert_eq!(messages::credit_leftovers_msg(40), "יש לך 20 נקודות עודפות");
}

#[test]
fn fixed_messages() {
    assert_eq!(messages::english_requirement_for_exempt_students_msg(), "אזהרה: לא השלמת את דרישת האנגלית לסיום התואר. סטודנטים שהתחילו את לימודיהם החל מתשפ\"ב נדרשים להשלים שני קורסי תוכן באנגלית.");
    assert_eq!(messages::english_requirement_for_technical_advanced_b_students_msg(), "אזהרה: לא השלמת את דרישת האנגלית לסיום התואר. סטודנטים שהתחילו את לימודיהם החל מתשפ\"ב נדרשים להשלים קורס תוכן באנגלית בנוסף לקורס אנגלית טכנית מתקדמים ב ");
    assert_eq!(
        messages::medicine_course_retake_limit_exceeded_error_message(),
        "פסילה: לא ניתן לסגור את התואר. חרגת מכמות הפעמים המותרת לחזור על כל קורס"
    );
    assert_eq!(
        messages::medicine_total_retake_limit_exceeded_error_message(),
        "פסילה: לא ניתן לסגור את התואר. חרגת מכמות הפעמים המותרת לחזור על קורס"
    );
    assert_eq!(messages::build_credit_transfer_graph_failed(), "בניית הגרף נכשלה");
    assert_eq!(messages::cannot_find_course(), "שגיאה - קורס לא נמצא");
    assert_eq!(
        messages::cyclic_credit_transfer_graph("חובה"),
        "קיימת תלות מעגלית במעברי הנקודות שנקבעו. התלות המעגלית מתחילה ונגמרת בחובה"
    );
}
