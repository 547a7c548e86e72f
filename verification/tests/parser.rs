use degree_planner::course::CourseState;
use degree_planner::course::Grade;
use degree_planner::parser::parse_copy_paste_data;
use degree_planner::parser::ParseError;

fn sheet() -> String {
    let mut text = String::from("גיליון ציונים\nשם: ישראל ישראלי\n");
    let mut number = 234100;
    for semester in ["חורף תשע\"ט 2018-2019", "אביב תשע\"ט 2018-2019", "קיץ תשע\"ט 2018-2019", "חורף תש\"ף 2019-2020"] {
        text.push_str(semester);
        text.push('\n');
        text.push_str("נקודות ציון מקצוע\n");
        for _ in 0..10 {
            number += 1;
            text.push_str(&format!("{} מבוא למדעי המחשב 4.0 85\n", number));
        }
    }
    text.push_str("234129 מבוא לתורת הקבוצות 3.0 67\n");
    text.push_str("ממוצע מצטבר 85.0\n");
    text.push_str("סוף גיליון ציונים\n");
    text
}

#[test]
fn test_pdf_parser() {
    let from_pdf = sheet();
    let courses_display_from_pdf =
        parse_copy_paste_data(&from_pdf).expect("failed to parse pdf data");

    assert_eq!(courses_display_from_pdf.len(), 41);

    let mut from_pdf_bad_prefix = from_pdf.clone();
    from_pdf_bad_prefix.replace_range(0..0, "א");

    assert!(parse_copy_paste_data(&from_pdf_bad_prefix).is_err());

    let from_pdf_bad_content = from_pdf.replace("סוף גיליון ציונים", "");

    assert!(parse_copy_paste_data(&from_pdf_bad_content).is_err());
}

#[test]
fn test_asterisk_course_edge_case() {
    let from_pdf = "גיליון ציונים\nחורף תשע\"ט\n234129* מבוא לתורת הקבוצות 3.0 67\n234114 מבוא למדעי המחשב 4.0 90\nאביב תשע\"ט\n234129* מבוא לתורת הקבוצות 3.0 לא השלים\nסוף גיליון ציונים";
    let courses_display_from_pdf =
        parse_copy_paste_data(from_pdf).expect("failed to parse pdf data");

    let edge_case_course = courses_display_from_pdf
        .iter()
        .find(|c| c.course.id == "234129")
        .unwrap();

    assert_eq!(edge_case_course.grade.as_ref().unwrap(), &Grade::Numeric(67));
    assert_eq!(edge_case_course.semester.as_ref().unwrap(), "חורף_1");
    assert_eq!(courses_display_from_pdf.len(), 2);
}

#[test]
fn records_hold_what_the_line_says() {
    let text = "גיליון ציונים\r\nאביב 2020\r\n104031 חשבון אינפיניטסימלי 1מ' 5.5 85\r\n394800 חינוך גופני 1 עבר\r\n114071 פיסיקה 1מ 3.5 נכשל\r\n234114 מבוא 4 54\r\n234117 מבוא 4.0 -\r\n01140710 פיסיקה 3.5 100\r\nסוף גיליון ציונים\r\n";
    let records = parse_copy_paste_data(text).unwrap();
    assert_eq!(records.len(), 6);

    assert_eq!(records[0].course.id, "104031");
    assert_eq!(records[0].course.name, "חשבון אינפיניטסימלי 1מ'");
    assert_eq!(records[0].course.credit, 11);
    assert_eq!(records[0].grade, Some(Grade::Numeric(85)));
    assert_eq!(records[0].state, Some(CourseState::Complete));
    assert_eq!(records[0].semester, Some("אביב_1".to_string()));
    assert_eq!(records[0].course_type, None);
    assert_eq!(records[0].additional_msg, None);
    assert!(!records[0].modified);

    assert_eq!(records[1].course.name, "חינוך גופני");
    assert_eq!(records[1].course.credit, 2);
    assert_eq!(records[1].grade, Some(Grade::Binary(true)));
    assert_eq!(records[1].state, Some(CourseState::Complete));

    assert_eq!(records[2].course.credit, 7);
    assert_eq!(records[2].grade, Some(Grade::Binary(false)));
    assert_eq!(records[2].state, Some(CourseState::NotComplete));

    assert_eq!(records[3].course.credit, 8);
    assert_eq!(records[3].grade, Some(Grade::Numeric(54)));
    assert_eq!(records[3].state, Some(CourseState::NotComplete));

    assert_eq!(records[4].grade, None);
    assert_eq!(records[4].state, Some(CourseState::NotComplete));

    assert_eq!(records[5].course.id, "01140710");
    assert_eq!(records[5].grade, Some(Grade::Numeric(100)));
}

#[test]
fn semesters_count_in_half_steps() {
    let text = "גיליון ציונים\n100001 a 1 60\nחורף\n100002 a 1 60\nאביב\n100003 a 1 60\nקיץ\n100004 a 1 60\nחורף\n100005 a 1 60\nאביב\n100006 a 1 60\nסוף גיליון ציונים";
    let records = parse_copy_paste_data(text).unwrap();
    let semesters: Vec<Option<String>> = records.iter().map(|r| r.semester.clone()).collect();
    assert_eq!(
        semesters,
        vec![
            None,
            Some("חורף_1".to_string()),
            Some("אביב_2".to_string()),
            Some("קיץ_2.5".to_string()),
            Some("חורף_3".to_string()),
            Some("אביב_4".to_string()),
        ]
    );
    let ordinals: Vec<u32> = records.iter().map(|r| r.extract_semester()).collect();
    assert_eq!(ordinals, vec![0, 2, 4, 5, 6, 8]);
}

#[test]
fn lines_of_another_shape_are_skipped() {
    let text = "גיליון ציונים\n1234 short 3.0 80\n123456789 long 3.0 80\n12a456 letters 3.0 80\n234114 nocredit x 80\n234114 80\n234114\n\n234114 name 3.5 101\n234114 name 3.25 80\nסוף גיליון ציונים";
    let records = parse_copy_paste_data(text).unwrap();
    assert_eq!(records.len(), 1);
    assert_eq!(records[0].course.credit, 7);
    assert_eq!(records[0].grade, None);
}

#[test]
fn a_number_and_two_words_has_no_name() {
    let text = "גיליון ציונים סוף גיליון ציונים\n234114 3.0 80";
    let records = parse_copy_paste_data(text).unwrap();
    assert_eq!(records.len(), 1);
    assert_eq!(records[0].course.name, "");
    assert_eq!(records[0].course.credit, 6);
    assert_eq!(records[0].grade, Some(Grade::Numeric(80)));
}

#[test]
fn envelope_is_required() {
    assert_eq!(parse_copy_paste_data(""), Err(ParseError::MalformedFormat));
    assert_eq!(parse_copy_paste_data("גיליון ציונים\n234114 a 3.0 80\n"), Err(ParseError::MalformedFormat));
    assert_eq!(parse_copy_paste_data(" גיליון ציונים\nסוף גיליון ציונים"), Err(ParseError::MalformedFormat));
    assert_eq!(parse_copy_paste_data("סוף גיליון ציונים"), Err(ParseError::MalformedFormat));
    assert_eq!(parse_copy_paste_data("גיליון ציונים\nסוף גיליון ציונים"), Ok(vec![]));
}
