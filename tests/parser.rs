use time_tracking_parser::{parse_entries, parse_time_tracking_data, summarize, Report, Time};

const SAMPLE: &str = "11:45-12:15 code1\n- did X\n12:15-1:30 code2\n- did Y\n1:30-2 code1\n2-4 code3";

fn project_totals(r: &Report) -> Vec<(String, u32)> {
    r.projects.iter().map(|p| (p.name.clone(), p.total_minutes)).collect()
}

#[test]
fn duration_words() {
    assert_eq!(Time::format_duration_minutes(0), "0 minutes");
    assert_eq!(Time::format_duration_minutes(90), "1 hour 30 minutes");
    assert_eq!(Time::format_duration_minutes(1), "1 minute");
    assert_eq!(Time::format_duration_minutes(45), "45 minutes");
    assert_eq!(Time::format_duration_minutes(60), "1 hour");
    assert_eq!(Time::format_duration_minutes(120), "2 hours");
    assert_eq!(Time::format_duration_minutes(61), "1 hour 1 minute");
    assert_eq!(Time::format_duration_minutes(125), "2 hours 5 minutes");
}

#[test]
fn duration_decimal() {
    assert_eq!(Time::format_duration_decimal(90), "1.50");
    assert_eq!(Time::format_duration_decimal(0), "0.00");
    assert_eq!(Time::format_duration_decimal(1), "0.02");
    assert_eq!(Time::format_duration_decimal(20), "0.33");
    assert_eq!(Time::format_duration_decimal(40), "0.67");
    assert_eq!(Time::format_duration_decimal(255), "4.25");
    assert_eq!(Time::format_duration_decimal(600), "10.00");
}

#[test]
fn duration_largest() {
    assert_eq!(Time::format_duration_decimal(u32::MAX), "71582788.25");
    assert_eq!(
        Time::format_duration_minutes(u32::MAX),
        "71582788 hours 15 minutes"
    );
}

#[test]
fn time_tokens() {
    let m = |s: &str| Time::parse(s).map(|t| t.minutes);
    assert_eq!(m("11:45"), Some(705));
    assert_eq!(m("12:15"), Some(735));
    assert_eq!(m("1:30"), Some(810));
    assert_eq!(m("2"), Some(840));
    assert_eq!(m("6:59"), Some(1139));
    assert_eq!(m("7"), Some(420));
    assert_eq!(m("9:05"), Some(545));
    assert_eq!(m("0:30"), Some(30));
    assert_eq!(m("13:05"), Some(785));
    assert_eq!(m("23:59"), Some(1439));
    assert_eq!(m("11:45pm"), Some(1425));
    assert_eq!(m("12am"), Some(0));
    assert_eq!(m("12PM"), Some(720));
    assert_eq!(m("7Pm"), Some(1140));
    assert_eq!(m("2am"), Some(120));
}

#[test]
fn time_tokens_rejected() {
    for s in ["", "1:60", "24", "ab", "1:5", "13pm", "0am", ":30", "123", "1:30x", "pm"] {
        assert!(Time::parse(s).is_none(), "{s}");
    }
}

#[test]
fn time_format() {
    assert_eq!(Time::from_minutes(0).format(), "12:00");
    assert_eq!(Time::from_minutes(960).format(), "4:00");
    assert_eq!(Time::from_minutes(705).format(), "11:45");
    assert_eq!(Time::from_minutes(65).format(), "1:05");
    assert_eq!(Time::from_minutes(1439).format(), "11:59");
}

#[test]
fn sample_report() {
    let r = parse_time_tracking_data(SAMPLE);
    assert_eq!(r.formatted_start_time(), "11:45");
    assert_eq!(r.formatted_end_time(), "4:00");
    // 30 + 75 + 30 + 120 minutes.
    assert_eq!(r.total_minutes, 255);
    assert_eq!(r.dead_time_minutes, 0);
    assert_eq!(
        project_totals(&r),
        vec![("code1".to_string(), 60), ("code2".to_string(), 75), ("code3".to_string(), 120)]
    );
    assert_eq!(r.projects[0].notes, vec!["did X".to_string()]);
    assert_eq!(r.projects[1].notes, vec!["did Y".to_string()]);
    assert!(r.projects[2].notes.is_empty());
    assert!(r.warnings.is_empty());
    assert_eq!(r.entries.len(), 4);
    assert_eq!(r.formatted_total_minutes(), "4 hours 15 minutes");
    assert_eq!(r.formatted_total_decimal(), "4.25");
    assert_eq!(r.formatted_dead_time_minutes(), "0 minutes");
    assert_eq!(r.formatted_dead_decimal(), "0.00");
}

#[test]
fn same_text_same_report() {
    let a = parse_time_tracking_data(SAMPLE);
    let b = parse_time_tracking_data(SAMPLE);
    assert_eq!(a, b);
    let c = parse_time_tracking_data("1-3 a\n2-4 b\nnonsense\n- x");
    let d = parse_time_tracking_data("1-3 a\n2-4 b\nnonsense\n- x");
    assert_eq!(c, d);
}

#[test]
fn total_is_sum_of_projects() {
    for text in [SAMPLE, "9-10 a\n10-11 b\n11-12 a\n2-1 c\n1-3 b", "1-3 a\n2-4 b"] {
        let r = parse_time_tracking_data(text);
        let sum: u32 = r.projects.iter().map(|p| p.total_minutes).sum();
        assert_eq!(r.total_minutes, sum, "{text}");
    }
}

#[test]
fn dead_time_is_sum_of_gaps() {
    let r = parse_time_tracking_data("9-10 a\n10:30-11 b\n1-2 c");
    assert_eq!(r.dead_time_minutes, 30 + 120);
    assert_eq!(r.formatted_dead_time_minutes(), "2 hours 30 minutes");
    assert_eq!(r.formatted_dead_decimal(), "2.50");
    assert!(r.warnings.is_empty());
}

#[test]
fn empty_text() {
    for text in ["", "\n", "  \n\t\n"] {
        let r = parse_time_tracking_data(text);
        assert!(r.entries.is_empty());
        assert!(r.projects.is_empty());
        assert_eq!(r.total_minutes, 0);
        assert_eq!(r.dead_time_minutes, 0);
        assert!(r.warnings.is_empty());
        assert_eq!(r.formatted_start_time(), "--:--");
        assert_eq!(r.formatted_end_time(), "--:--");
    }
}

#[test]
fn backward_interval() {
    let r = parse_time_tracking_data("2-1 code1");
    assert_eq!(r.warnings, vec!["line 1: code1 ends at 1:00, not after its start 2:00".to_string()]);
    assert_eq!(r.total_minutes, 0);
    assert_eq!(r.dead_time_minutes, 0);
    assert_eq!(r.entries.len(), 1);
    assert_eq!(project_totals(&r), vec![("code1".to_string(), 0)]);
}

#[test]
fn backward_interval_adds_no_gap() {
    // 1:00-2:00 pm, then a backward entry, then 5:00-6:00 pm.
    let r = parse_time_tracking_data("1-2 a\n4-3 b\n5-6 c");
    assert_eq!(r.dead_time_minutes, 180);
    assert_eq!(r.total_minutes, 120);
    assert_eq!(r.warnings.len(), 1);
    assert!(r.warnings[0].starts_with("line 2: b ends at 3:00"));
}

#[test]
fn overlapping_intervals() {
    let r = parse_time_tracking_data("1-3 a\n2-4 b");
    assert_eq!(
        r.warnings,
        vec!["overlapping entries between a (1:00-3:00) and b (2:00-4:00)".to_string()]
    );
    assert_eq!(r.dead_time_minutes, 0);
    assert_eq!(r.total_minutes, 240);
    let r = parse_time_tracking_data("1-3 a\n2-4 b\n5-6 c");
    assert_eq!(r.dead_time_minutes, 60);
}

#[test]
fn unreadable_lines_and_stray_notes() {
    let r = parse_time_tracking_data("- early\n  hello world  \n9-10 a\n9-x b\n- late");
    assert_eq!(
        r.warnings,
        vec![
            "line 1: note \"early\" comes before any entry".to_string(),
            "line 2: cannot read \"hello world\"".to_string(),
            "line 4: cannot read \"9-x b\"".to_string(),
        ]
    );
    assert_eq!(r.entries.len(), 1);
    assert_eq!(r.entries[0].notes, vec!["late".to_string()]);
}

#[test]
fn labels_and_line_ends() {
    let r = parse_time_tracking_data("9-10:15   code review  \r\n* looked at a patch\r\n10:15-11\t code review\r\n");
    assert!(r.warnings.is_empty());
    assert_eq!(project_totals(&r), vec![("code review".to_string(), 120)]);
    assert_eq!(r.projects[0].notes, vec!["looked at a patch".to_string()]);
    // A range without a label, or without a dash, cannot be read.
    let r = parse_time_tracking_data("9-10\n9 x\n9-10 -");
    assert_eq!(r.warnings.len(), 2);
    assert_eq!(r.entries.len(), 1);
    assert_eq!(r.entries[0].interval.label, "-");
}

#[test]
fn entries_keep_notes_in_order() {
    let (entries, warnings) = parse_entries("9-10 a\n- one\n- two\n\n10-11 b\n- three");
    assert!(warnings.is_empty());
    assert_eq!(entries.len(), 2);
    assert_eq!(entries[0].notes, vec!["one".to_string(), "two".to_string()]);
    assert_eq!(entries[1].notes, vec!["three".to_string()]);
    assert_eq!(entries[0].interval.duration_minutes(), 60);
    assert_eq!(entries[1].interval.start.minutes, 600);
}

#[test]
fn summarize_keeps_given_warnings() {
    let (entries, _) = parse_entries("9-11 a\n10-12 b");
    let r = summarize(entries, vec!["first".to_string()]);
    assert_eq!(r.warnings.len(), 2);
    assert_eq!(r.warnings[0], "first");
    assert_eq!(r.total_minutes, 240);
}

#[test]
fn notes_as_list() {
    let r = parse_time_tracking_data(SAMPLE);
    assert_eq!(r.projects[0].notes_text(), "- did X");
    let r = parse_time_tracking_data("9-10 a\n- one\n10-11 a\n- two");
    assert_eq!(r.projects[0].notes_text(), "- one\n- two");
    let r = parse_time_tracking_data("9-10 a");
    assert_eq!(r.projects[0].notes_text(), "");
}
