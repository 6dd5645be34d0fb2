//! Tests for the CV data model and the resume assembler.

use resume_tailor::resume::{Date, PhoneNumber, SortableResumeItem, CV};
use resume_tailor::text::capitalize;
use resume_tailor::word_cloud::WordCloud;

fn strings(v: &[&str]) -> Vec<String> {
    v.iter().map(|s| s.to_string()).collect()
}

#[test]
fn capitalize_uppercases_first_letter() {
    assert_eq!(capitalize("hello".to_string()), "Hello");
    assert_eq!(capitalize("hello world".to_string()), "Hello world");
    assert_eq!(capitalize("Hello".to_string()), "Hello");
    assert_eq!(capitalize("".to_string()), "");
    assert_eq!(capitalize("123abc".to_string()), "123abc");
}

#[test]
fn phone_number_parses_all_components() {
    let p = PhoneNumber::new("+1 (555) 2321 123".to_string());
    assert_eq!(p.country_code, "+1");
    assert_eq!(p.area_code.as_deref(), Some("(555)"));
    assert_eq!(p.phone_number, "2321123");
}

#[test]
fn phone_number_without_area_code() {
    let p = PhoneNumber::new("+44 123 456".to_string());
    assert_eq!(p.country_code, "+44");
    assert_eq!(p.area_code, None);
    assert_eq!(p.phone_number, "123456");
}

#[test]
fn phone_number_later_country_code_wins() {
    let p = PhoneNumber::new("+1 +2 33".to_string());
    assert_eq!(p.country_code, "+2");
    assert_eq!(p.area_code, None);
    assert_eq!(p.phone_number, "33");
}

#[test]
fn capitalize_leaves_non_ascii_first_character() {
    assert_eq!(capitalize("\u{00f1}x".to_string()), "\u{00f1}x");
}

#[test]
fn date_new_keeps_fields() {
    let d = Date::new(2021, Some(6), None);
    assert_eq!(d.year, 2021);
    assert_eq!(d.month, Some(6));
    assert_eq!(d.day, None);
}

#[test]
fn sortable_resume_item_holds_payload_and_score() {
    let it = SortableResumeItem::new("rust".to_string(), 7);
    assert_eq!(it.sortable, "rust");
    assert_eq!(it.point_value, 7);
}

#[test]
fn skills_group_by_lowercased_category() {
    let mut cv = CV::new();
    cv.add_skill("Rust".to_string(), Some("Languages".to_string()));
    cv.add_skill("Go".to_string(), Some("lanGUAGES".to_string()));
    cv.add_skill("Vim".to_string(), None);
    let wc = WordCloud::new();
    let resume = cv.generate_resume(&wc);
    let skills = resume.get_skills();
    assert_eq!(skills.len(), 2);
    assert_eq!(skills[0].0, "languages");
    assert_eq!(skills[0].1.len(), 2);
    assert_eq!(skills[0].1[0].sortable, "Rust");
    assert_eq!(skills[0].1[1].sortable, "Go");
    assert_eq!(skills[1].0, "default");
    assert_eq!(skills[1].1[0].sortable, "Vim");
}

#[test]
fn skills_sort_ascending_by_weight() {
    // the example model: every word has count 1, total weight 5
    let wc = WordCloud::create_from_text("Python engineer builds scalable systems");
    let mut cv = CV::new();
    cv.add_skill("Java".to_string(), None);
    cv.add_skill("Python".to_string(), None);
    let resume = cv.generate_resume(&wc);
    let skills = resume.get_skills();
    assert_eq!(skills.len(), 1);
    let items: Vec<&str> = skills[0].1.iter().map(|i| i.sortable.as_str()).collect();
    // Java scores 0, Python scores 1: ascending keeps Java first
    assert_eq!(items, vec!["Java", "Python"]);
    assert_eq!(skills[0].1[0].point_value, 0);
    assert_eq!(skills[0].1[1].point_value, 1);
}

#[test]
fn equal_scores_keep_input_order() {
    // a zero model scores everything 0; order must be preserved
    let wc = WordCloud::create_from_text("");
    let mut cv = CV::new();
    cv.add_skill("b".to_string(), None);
    cv.add_skill("a".to_string(), None);
    cv.add_skill("c".to_string(), None);
    let resume = cv.generate_resume(&wc);
    let items: Vec<&str> = resume.get_skills()[0]
        .1
        .iter()
        .map(|i| i.sortable.as_str())
        .collect();
    assert_eq!(items, vec!["b", "a", "c"]);
}

#[test]
fn work_entries_sort_ascending_by_total_weight() {
    let wc = WordCloud::create_from_text("aa bb cc");
    let mut cv = CV::new();
    // added first, but scores 7
    cv.add_work_experience(
        "x".to_string(),
        "SevenCo".to_string(),
        None,
        strings(&["aa aa aa aa aa bb cc"]),
        Date::new(2020, None, None),
        None,
    );
    // added second, but scores 3
    cv.add_work_experience(
        "y".to_string(),
        "ThreeCo".to_string(),
        None,
        strings(&["aa bb cc"]),
        Date::new(2021, None, None),
        None,
    );
    let resume = cv.generate_resume(&wc);
    let work = resume.get_work_experience();
    assert_eq!(work.len(), 2);
    assert_eq!(work[0].sortable.get_company_name(), "ThreeCo");
    assert_eq!(work[0].point_value, 3);
    assert_eq!(work[1].sortable.get_company_name(), "SevenCo");
    assert_eq!(work[1].point_value, 7);
}

#[test]
fn work_entries_with_equal_weights_keep_order() {
    let wc = WordCloud::create_from_text("");
    let mut cv = CV::new();
    for name in ["First", "Second", "Third"] {
        cv.add_work_experience(
            "t".to_string(),
            name.to_string(),
            None,
            strings(&["d"]),
            Date::new(2020, None, None),
            None,
        );
    }
    let resume = cv.generate_resume(&wc);
    let names: Vec<&str> = resume
        .get_work_experience()
        .iter()
        .map(|i| i.sortable.get_company_name().as_str())
        .collect();
    assert_eq!(names, vec!["First", "Second", "Third"]);
}

#[test]
fn descriptions_reorder_in_place_ascending() {
    let wc = WordCloud::create_from_text("Python engineer builds scalable systems");
    let mut cv = CV::new();
    cv.add_work_experience(
        "dev".to_string(),
        "co".to_string(),
        None,
        strings(&["built scalable systems", "wrote code"]),
        Date::new(2020, None, None),
        None,
    );
    let resume = cv.generate_resume(&wc);
    // "built scalable systems" scores 2 ("built" does not match "builds"),
    // "wrote code" scores 0: ascending puts "wrote code" first
    let descs = resume.get_work_experience()[0].sortable.get_job_description();
    assert_eq!(descs, &strings(&["wrote code", "built scalable systems"]));
    // the side effect is visible on the CV itself
    assert_eq!(
        cv.work_experience[0].job_description,
        strings(&["wrote code", "built scalable systems"])
    );
    // the entry's weight is 2 + 0 plus the title's 0
    assert_eq!(resume.get_work_experience()[0].point_value, 2);
}

#[test]
fn work_title_counts_toward_entry_weight() {
    let wc = WordCloud::create_from_text("manager");
    let mut cv = CV::new();
    cv.add_work_experience(
        "manager".to_string(),
        "co".to_string(),
        None,
        Vec::new(),
        Date::new(2020, None, None),
        None,
    );
    let resume = cv.generate_resume(&wc);
    assert_eq!(resume.get_work_experience()[0].point_value, 1);
}

#[test]
fn school_name_does_not_count_toward_education_weight() {
    let wc = WordCloud::create_from_text("school calculus physics");
    let mut cv = CV::new();
    cv.add_education(
        "school".to_string(),
        strings(&["math"]),
        "here".to_string(),
        Vec::new(),
        strings(&["physics", "calculus"]),
        350,
        Date::new(2018, None, None),
        None,
    );
    let resume = cv.generate_resume(&wc);
    let edu = resume.get_education();
    assert_eq!(edu.len(), 1);
    // coursework scores 1 + 1, major "math" scores 0; "school" is ignored
    assert_eq!(edu[0].point_value, 2);
    assert_eq!(edu[0].sortable.get_gpa(), 350);
    // coursework reordered in place; equal scores keep order
    assert_eq!(
        edu[0].sortable.get_coursework(),
        &strings(&["physics", "calculus"])
    );
    // majors and minors are not reordered
    assert_eq!(edu[0].sortable.get_major(), &strings(&["math"]));
}

#[test]
fn education_coursework_reorders_ascending() {
    let wc = WordCloud::create_from_text("physics physics calculus");
    let mut cv = CV::new();
    cv.add_education(
        "u".to_string(),
        Vec::new(),
        "here".to_string(),
        Vec::new(),
        strings(&["physics", "calculus"]),
        400,
        Date::new(2018, None, None),
        None,
    );
    let resume = cv.generate_resume(&wc);
    // physics scores 2, calculus scores 1: ascending puts calculus first
    assert_eq!(
        resume.get_education()[0].sortable.get_coursework(),
        &strings(&["calculus", "physics"])
    );
    assert_eq!(cv.education[0].coursework, strings(&["calculus", "physics"]));
    assert_eq!(resume.get_education()[0].point_value, 3);
}

#[test]
fn project_name_does_not_count_toward_project_weight() {
    let wc = WordCloud::create_from_text("compiler parser");
    let mut cv = CV::new();
    cv.add_project(
        "compiler".to_string(),
        strings(&["parser"]),
        Date::new(2022, None, None),
        None,
    );
    let resume = cv.generate_resume(&wc);
    assert_eq!(resume.get_projects().len(), 1);
    assert_eq!(resume.get_projects()[0].point_value, 1);
    assert_eq!(resume.get_projects()[0].sortable.get_project_name(), "compiler");
}

#[test]
fn projects_sort_and_reorder_descriptions() {
    let wc = WordCloud::create_from_text("web server fast");
    let mut cv = CV::new();
    cv.add_project(
        "big".to_string(),
        strings(&["web server", "fast"]),
        Date::new(2022, None, None),
        None,
    );
    cv.add_project(
        "small".to_string(),
        strings(&["nothing"]),
        Date::new(2023, None, None),
        None,
    );
    let resume = cv.generate_resume(&wc);
    let projects = resume.get_projects();
    // "small" scores 0 and comes first; "big" scores 3
    assert_eq!(projects[0].sortable.get_project_name(), "small");
    assert_eq!(projects[1].sortable.get_project_name(), "big");
    // within "big", "fast" (1) comes before "web server" (2)
    assert_eq!(
        projects[1].sortable.get_project_description(),
        &strings(&["fast", "web server"])
    );
}

#[test]
fn zero_model_assembly_is_identity_ordering() {
    let wc = WordCloud::create_from_text("");
    let mut cv = CV::new();
    cv.add_work_experience(
        "b".to_string(),
        "B".to_string(),
        None,
        strings(&["one", "two"]),
        Date::new(2020, None, None),
        None,
    );
    cv.add_project(
        "p".to_string(),
        strings(&["x", "y"]),
        Date::new(2021, None, None),
        None,
    );
    let resume = cv.generate_resume(&wc);
    assert_eq!(
        resume.get_work_experience()[0].sortable.get_job_description(),
        &strings(&["one", "two"])
    );
    assert_eq!(resume.get_work_experience()[0].point_value, 0);
    assert_eq!(
        resume.get_projects()[0].sortable.get_project_description(),
        &strings(&["x", "y"])
    );
}

#[test]
fn work_entry_fields_carry_over() {
    let wc = WordCloud::new();
    let mut cv = CV::new();
    cv.add_work_experience(
        "dev".to_string(),
        "co".to_string(),
        Some("town".to_string()),
        strings(&["d1"]),
        Date::new(2019, Some(2), Some(3)),
        Some(Date::new(2020, None, None)),
    );
    let resume = cv.generate_resume(&wc);
    let e = &resume.get_work_experience()[0].sortable;
    assert_eq!(e.get_job_title(), "dev");
    assert_eq!(e.get_company_name(), "co");
    assert_eq!(e.get_job_location().as_deref(), Some("town"));
    assert_eq!(e.get_job_start().year, 2019);
    assert_eq!(e.get_job_start().month, Some(2));
    assert_eq!(e.get_job_end().as_ref().map(|d| d.year), Some(2020));
}
