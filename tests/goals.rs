use beeline::{
    day_number, format_goal, has_entry_on, lists_before, local_day, safebuf_color, GoalColor,
    GoalSummary,
};

fn goal(slug: &str, safebuf: i64, lastday: i64) -> GoalSummary {
    GoalSummary { slug: slug.to_string(), safebuf, limsum: "+1 due in 2 days".to_string(), lastday }
}

#[test]
fn formats_goal_line() {
    let line = format_goal(&goal("pushups", 2, 0), true);
    assert_eq!(line.text, "\u{2713} pushups              [+1 due in 2 days]");
    assert_eq!(line.color, GoalColor::Blue);
    let line = format_goal(&goal("a-very-long-goal-slug-name", 9, 0), false);
    assert_eq!(line.text, "  a-very-long-goal-slug-name [+1 due in 2 days]");
    assert_eq!(line.color, GoalColor::White);
}

#[test]
fn colors_by_safety_buffer() {
    assert_eq!(safebuf_color(0), GoalColor::Red);
    assert_eq!(safebuf_color(1), GoalColor::Yellow);
    assert_eq!(safebuf_color(2), GoalColor::Blue);
    assert_eq!(safebuf_color(3), GoalColor::Green);
    assert_eq!(safebuf_color(6), GoalColor::Green);
    assert_eq!(safebuf_color(7), GoalColor::White);
    assert_eq!(safebuf_color(-1), GoalColor::White);
}

#[test]
fn day_numbers_round_down() {
    assert_eq!(day_number(0), 0);
    assert_eq!(day_number(86_399), 0);
    assert_eq!(day_number(86_400), 1);
    assert_eq!(day_number(-1), -1);
    assert_eq!(day_number(-86_400), -1);
    assert_eq!(day_number(-86_401), -2);
}

#[test]
fn local_day_uses_offset() {
    assert_eq!(local_day(86_000, Some(3600)), 1);
    assert_eq!(local_day(86_000, None), 0);
    assert_eq!(local_day(100, Some(-3600)), -1);
}

#[test]
fn entry_today_compares_days() {
    let g = goal("g", 1, 1_600_000_000);
    assert!(has_entry_on(&g, 18_518));
    assert!(!has_entry_on(&g, 18_519));
}

#[test]
fn listing_puts_unentered_goals_first() {
    let a = goal("a", 5, 0);
    let b = goal("b", 1, 0);
    assert!(lists_before(&a, false, &b, true));
    assert!(!lists_before(&b, true, &a, false));
    assert!(lists_before(&b, false, &a, false));
    assert!(!lists_before(&a, true, &a, true));
}
