use todo_cli::due::{due_cell_at, due_overdue, due_overdue_at, parse_due, Moment, colored_priority, due_cell};
use todo_cli::model::{Data, Priority, SortBy, Status, Task, TodoError};
use todo_cli::ops::{add_task, cmd_add, cmd_delete, cmd_done, cmd_edit, cmd_undo, find_task, validate_add};
use todo_cli::query::{cmd_list, cmd_search, collect_tasks, sort_tasks};
use todo_cli::report::{cmd_stats, render_table_at, render_tasks, stats_at};
use todo_cli::text::{
    chars_of, contains_text, decimal_text, is_blank, is_white_space, is_yes_answer, pad, pad_shown, repeat_text,
    text_less, trim,
};

fn task(id: u64, text: &str, priority: Priority, status: Status, due: Option<&str>, created: &str) -> Task {
    Task {
        id,
        text: text.to_string(),
        priority,
        status,
        due: due.map(|d| d.to_string()),
        created_at: created.to_string(),
    }
}

fn moment(year: i32, month: u32, day: u32, hour: u32, minute: u32) -> Moment {
    Moment { year, month, day, hour, minute, second: 0, nanosecond: 0 }
}

fn sample() -> Data {
    Data {
        next_id: 5,
        tasks: vec![
            task(1, "写周报", Priority::High, Status::Pending, Some("2026-09-09 18:00"), "2026-09-01"),
            task(2, "买菜", Priority::Medium, Status::Done, None, "2026-09-02"),
            task(3, "Read Book", Priority::Low, Status::Pending, Some("2026-09-08"), "2026-08-30"),
            task(4, "write code", Priority::High, Status::Pending, None, "2026-09-03"),
        ],
    }
}

fn ids(v: &[&Task]) -> Vec<u64> {
    v.iter().map(|t| t.id).collect()
}

// ---------------------------------------------------------------------------
// Priorities
// ---------------------------------------------------------------------------

#[test]
fn priority_labels_colors_weights() {
    assert_eq!(Priority::High.label(), "高");
    assert_eq!(Priority::Medium.label(), "中");
    assert_eq!(Priority::Low.label(), "低");
    assert_eq!(Priority::High.color(), "\x1b[31m");
    assert_eq!(Priority::Medium.color(), "\x1b[33m");
    assert_eq!(Priority::Low.color(), "\x1b[32m");
    assert_eq!(Priority::High.weight(), 0);
    assert_eq!(Priority::Medium.weight(), 1);
    assert_eq!(Priority::Low.weight(), 2);
}

#[test]
fn colored_priority_text() {
    assert_eq!(colored_priority(Priority::High, false), "高");
    assert_eq!(colored_priority(Priority::Low, true), "\x1b[32m低\x1b[0m");
}

// ---------------------------------------------------------------------------
// Text
// ---------------------------------------------------------------------------

#[test]
fn pad_counts_wide_characters_twice() {
    assert_eq!(pad("ID", 4), "ID  ");
    assert_eq!(pad("状态", 4), "状态");
    assert_eq!(pad("中文", 6), "中文  ");
    assert_eq!(pad("toolong", 3), "toolong");
    assert_eq!(pad("", 2), "  ");
}

#[test]
fn trim_removes_unicode_white_space() {
    assert_eq!(trim("  abc \t"), "abc");
    assert_eq!(trim("\u{3000}写周报\n"), "写周报");
    assert_eq!(trim("   "), "");
    assert_eq!(trim("a b"), "a b");
    assert!(is_blank(" \t\n"));
    assert!(is_blank(""));
    assert!(!is_blank(" x "));
}

#[test]
fn white_space_agrees_with_std() {
    for n in 0u32..=0x10FFFF {
        if let Some(c) = char::from_u32(n) {
            assert_eq!(is_white_space(c), c.is_whitespace(), "U+{:04X}", n);
        }
    }
}

#[test]
fn pad_by_visible_text() {
    assert_eq!(pad_shown("\x1b[31m高\x1b[0m", "高", 6), "\x1b[31m高\x1b[0m    ");
    assert_eq!(pad_shown("ab", "ab", 1), "ab");
}

#[test]
fn contains_and_order_of_text() {
    assert!(contains_text("write code", "code"));
    assert!(contains_text("write code", ""));
    assert!(!contains_text("write", "writer"));
    assert!(contains_text("写周报", "周"));
    assert!(text_less("2026-09-01", "2026-09-02"));
    assert!(!text_less("abc", "abc"));
    assert!(text_less("ab", "abc"));
    assert!(!text_less("b", "abc"));
    assert!(text_less("Z", "a"));
}

#[test]
fn decimal_repeat_and_chars() {
    assert_eq!(decimal_text(0), "0");
    assert_eq!(decimal_text(7), "7");
    assert_eq!(decimal_text(1234567890), "1234567890");
    assert_eq!(decimal_text(u64::MAX), u64::MAX.to_string());
    assert_eq!(repeat_text("#", 3), "###");
    assert_eq!(repeat_text("-", 0), "");
    assert_eq!(chars_of("a中b"), vec!['a', '中', 'b']);
}

#[test]
fn yes_answers() {
    assert!(is_yes_answer("y"));
    assert!(is_yes_answer(" YES\n"));
    assert!(is_yes_answer("Yes"));
    assert!(!is_yes_answer("no"));
    assert!(!is_yes_answer(""));
    assert!(!is_yes_answer("yess"));
}

// ---------------------------------------------------------------------------
// Due times
// ---------------------------------------------------------------------------

#[test]
fn parse_due_forms() {
    assert_eq!(parse_due("2026-09-09 18:00"), Some(moment(2026, 9, 9, 18, 0)));
    assert_eq!(
        parse_due("2026-09-09"),
        Some(Moment { year: 2026, month: 9, day: 9, hour: 23, minute: 59, second: 59, nanosecond: 0 })
    );
    assert_eq!(parse_due("tomorrow"), None);
    assert_eq!(parse_due("2026-13-01"), None);
    assert_eq!(parse_due("2026-02-30"), None);
    assert_eq!(parse_due("2026-09-09 25:00"), None);
}

#[test]
fn overdue_only_when_pending_and_past() {
    let now = moment(2026, 9, 9, 12, 0);
    let late = task(1, "a", Priority::High, Status::Pending, Some("2026-09-08"), "2026-09-01");
    let today = task(2, "b", Priority::High, Status::Pending, Some("2026-09-09"), "2026-09-01");
    let done = task(3, "c", Priority::High, Status::Done, Some("2026-09-08"), "2026-09-01");
    let bad = task(4, "d", Priority::High, Status::Pending, Some("soon"), "2026-09-01");
    let minute = task(5, "e", Priority::High, Status::Pending, Some("2026-09-09 11:59"), "2026-09-01");
    assert!(due_overdue_at(&late, &now));
    assert!(!due_overdue_at(&today, &now));
    assert!(!due_overdue_at(&done, &now));
    assert!(!due_overdue_at(&bad, &now));
    assert!(due_overdue_at(&minute, &now));
}

#[test]
fn overdue_by_the_clock() {
    let old = task(1, "a", Priority::High, Status::Pending, Some("2000-01-01"), "1999-12-01");
    let far = task(2, "b", Priority::High, Status::Pending, Some("2999-01-01"), "1999-12-01");
    assert!(due_overdue(&old));
    assert!(!due_overdue(&far));
    assert_eq!(due_cell(&old, false), "2000-01-01!");
    assert_eq!(due_cell(&far, false), "2999-01-01");
}

#[test]
fn due_cells() {
    let now = moment(2026, 9, 9, 12, 0);
    let late = task(1, "a", Priority::High, Status::Pending, Some("2026-09-08"), "2026-09-01");
    let none = task(2, "b", Priority::High, Status::Pending, None, "2026-09-01");
    let later = task(3, "c", Priority::High, Status::Pending, Some("2026-09-10"), "2026-09-01");
    assert_eq!(due_cell_at(&late, &now, false), "2026-09-08!");
    assert_eq!(due_cell_at(&late, &now, true), "\x1b[31m2026-09-08!\x1b[0m");
    assert_eq!(due_cell_at(&none, &now, true), "-");
    assert_eq!(due_cell_at(&later, &now, true), "2026-09-10");
}

// ---------------------------------------------------------------------------
// Adding
// ---------------------------------------------------------------------------

#[test]
fn add_assigns_next_id_and_trims() {
    let mut data = Data::empty();
    let msg = add_task(&mut data, "  写周报 ", Priority::High, Some(" 2026-09-09 18:00 "), "2026-09-08".to_string());
    assert_eq!(msg, Ok("已添加任务 #1: 写周报".to_string()));
    assert_eq!(data.next_id, 2);
    assert_eq!(data.tasks.len(), 1);
    let t = &data.tasks[0];
    assert_eq!(t.id, 1);
    assert_eq!(t.text, "写周报");
    assert_eq!(t.priority, Priority::High);
    assert_eq!(t.status, Status::Pending);
    assert_eq!(t.due, Some("2026-09-09 18:00".to_string()));
    assert_eq!(t.created_at, "2026-09-08");
    let msg2 = add_task(&mut data, "买菜", Priority::Medium, Some("   "), "2026-09-08".to_string());
    assert_eq!(msg2, Ok("已添加任务 #2: 买菜".to_string()));
    assert_eq!(data.tasks[1].due, None);
}

#[test]
fn add_refuses_blank_text_and_bad_due() {
    let mut data = sample();
    assert_eq!(add_task(&mut data, "   ", Priority::Low, None, "2026-09-08".to_string()), Err(TodoError::EmptyText));
    assert_eq!(
        add_task(&mut data, "x", Priority::Low, Some("next week"), "2026-09-08".to_string()),
        Err(TodoError::InvalidDue)
    );
    assert_eq!(data.next_id, 5);
    assert_eq!(data.tasks.len(), 4);
}

#[test]
fn add_checks_before_reading() {
    assert_eq!(validate_add(" ", Some("bad")), Err(TodoError::EmptyText));
    assert_eq!(validate_add("x", Some("bad")), Err(TodoError::InvalidDue));
    assert_eq!(validate_add("x", Some("  ")), Ok(()));
    assert_eq!(validate_add("x", Some("2026-09-09")), Ok(()));
}

#[test]
fn add_refusals_need_no_free_id() {
    let mut data = Data { next_id: u64::MAX, tasks: vec![] };
    assert_eq!(add_task(&mut data, "", Priority::Low, None, "2026-09-08".to_string()), Err(TodoError::EmptyText));
    assert_eq!(data.next_id, u64::MAX);
}

#[test]
fn add_today_by_the_clock() {
    let mut data = sample();
    let msg = cmd_add(&mut data, "new", Priority::Low, None);
    assert_eq!(msg, Ok("已添加任务 #5: new".to_string()));
    let created = &data.tasks[4].created_at;
    assert_eq!(created.len(), 10);
    assert_eq!(&created[4..5], "-");
    assert_eq!(&created[7..8], "-");
    assert!(created.chars().filter(|c| *c != '-').all(|c| c.is_ascii_digit()));
}

// ---------------------------------------------------------------------------
// Done, undo, delete, edit
// ---------------------------------------------------------------------------

#[test]
fn done_marks_and_reports() {
    let mut data = sample();
    let msgs = cmd_done(&mut data, &[1, 2, 1]).unwrap();
    assert_eq!(
        msgs,
        vec![
            "已完成任务 #1: 写周报".to_string(),
            "任务 #2 已是完成状态。".to_string(),
            "任务 #1 已是完成状态。".to_string(),
        ]
    );
    assert_eq!(data.tasks[0].status, Status::Done);
    assert_eq!(data.tasks[2].status, Status::Pending);
}

#[test]
fn done_with_missing_id_changes_nothing() {
    let mut data = sample();
    assert_eq!(cmd_done(&mut data, &[1, 9, 8]), Err(TodoError::NotFound(9)));
    assert_eq!(data.tasks[0].status, Status::Pending);
}

#[test]
fn undo_restores_pending() {
    let mut data = sample();
    assert_eq!(cmd_undo(&mut data, 2), Ok("已恢复任务 #2: 买菜".to_string()));
    assert_eq!(data.tasks[1].status, Status::Pending);
    assert_eq!(cmd_undo(&mut data, 2), Ok("任务 #2 已是待办状态。".to_string()));
    assert_eq!(cmd_undo(&mut data, 7), Err(TodoError::NotFound(7)));
}

#[test]
fn delete_removes_and_reports() {
    let mut data = sample();
    let msgs = cmd_delete(&mut data, &[3, 1]).unwrap();
    assert_eq!(msgs, vec!["已删除任务 #3: Read Book".to_string(), "已删除任务 #1: 写周报".to_string()]);
    assert_eq!(data.tasks.iter().map(|t| t.id).collect::<Vec<_>>(), vec![2, 4]);
    assert_eq!(data.next_id, 5);
}

#[test]
fn delete_with_repeated_ids_deletes_once() {
    let mut data = sample();
    let msgs = cmd_delete(&mut data, &[1, 1, 3, 1]).unwrap();
    assert_eq!(msgs, vec!["已删除任务 #1: 写周报".to_string(), "已删除任务 #3: Read Book".to_string()]);
    assert_eq!(data.tasks.iter().map(|t| t.id).collect::<Vec<_>>(), vec![2, 4]);
    assert_eq!(data.next_id, 5);
}

#[test]
fn delete_with_missing_id_changes_nothing() {
    let mut data = sample();
    assert_eq!(cmd_delete(&mut data, &[1, 6]), Err(TodoError::NotFound(6)));
    assert_eq!(data.tasks.len(), 4);
}

#[test]
fn edit_changes_given_fields() {
    let mut data = sample();
    assert_eq!(
        cmd_edit(&mut data, 3, Some(" Read two books "), Some(Priority::High), Some(Some("2026-10-01"))),
        Ok("已更新任务 #3: Read two books".to_string())
    );
    let t = &data.tasks[2];
    assert_eq!(t.text, "Read two books");
    assert_eq!(t.priority, Priority::High);
    assert_eq!(t.due, Some("2026-10-01".to_string()));
    assert_eq!(t.created_at, "2026-08-30");
    assert_eq!(cmd_edit(&mut data, 3, None, None, Some(None)), Ok("已更新任务 #3: Read two books".to_string()));
    assert_eq!(data.tasks[2].due, None);
    assert_eq!(cmd_edit(&mut data, 1, None, None, Some(Some("  "))), Ok("已更新任务 #1: 写周报".to_string()));
    assert_eq!(data.tasks[0].due, None);
}

#[test]
fn edit_refusals() {
    let mut data = sample();
    assert_eq!(cmd_edit(&mut data, 1, None, None, None), Err(TodoError::NothingToEdit));
    assert_eq!(cmd_edit(&mut data, 9, Some("x"), None, None), Err(TodoError::NotFound(9)));
    assert_eq!(cmd_edit(&mut data, 1, Some(" "), None, None), Err(TodoError::EmptyText));
    assert_eq!(cmd_edit(&mut data, 1, Some("new"), Some(Priority::Low), Some(Some("later"))), Err(TodoError::InvalidDue));
    assert_eq!(data.tasks[0].text, "写周报");
    assert_eq!(data.tasks[0].priority, Priority::High);
}

#[test]
fn find_task_by_id() {
    let data = sample();
    assert_eq!(find_task(&data, 3).unwrap().text, "Read Book");
    assert!(matches!(find_task(&data, 42), Err(TodoError::NotFound(42))));
}

#[test]
fn error_messages() {
    assert_eq!(TodoError::EmptyText.message(), "任务内容不能为空。");
    assert_eq!(TodoError::InvalidDue.message(), "截止时间格式应为 YYYY-MM-DD 或 YYYY-MM-DD HH:MM。");
    assert_eq!(TodoError::NotFound(12).message(), "不存在 ID 为 12 的任务。可用 todo list 查看。");
    assert_eq!(TodoError::NothingToEdit.message(), "请至少提供一项修改：--text / --priority / --due / --no-due。");
    assert_eq!(TodoError::EmptyKeyword.message(), "搜索关键词不能为空。");
}

// ---------------------------------------------------------------------------
// Listing, searching, sorting
// ---------------------------------------------------------------------------

#[test]
fn collect_by_status_and_keyword() {
    let data = sample();
    assert_eq!(ids(&collect_tasks(&data, None, None)), vec![1, 2, 3, 4]);
    assert_eq!(ids(&collect_tasks(&data, Some(Status::Pending), None)), vec![1, 3, 4]);
    assert_eq!(ids(&collect_tasks(&data, Some(Status::Done), None)), vec![2]);
    assert_eq!(ids(&collect_tasks(&data, None, Some("WRITE"))), vec![4]);
    assert_eq!(ids(&collect_tasks(&data, None, Some("book"))), vec![3]);
    assert_eq!(ids(&collect_tasks(&data, None, Some("周"))), vec![1]);
}

#[test]
fn sort_by_priority_created_due() {
    let data = sample();
    let mut v = collect_tasks(&data, None, None);
    sort_tasks(&mut v, SortBy::Priority);
    assert_eq!(ids(&v), vec![1, 4, 3, 2]);
    sort_tasks(&mut v, SortBy::Created);
    assert_eq!(ids(&v), vec![3, 1, 4, 2]);
    sort_tasks(&mut v, SortBy::Due);
    assert_eq!(ids(&v), vec![3, 1, 4, 2]);
}

#[test]
fn sort_by_due_time_not_text() {
    let t1 = task(1, "a", Priority::Low, Status::Pending, Some("2026-09-09"), "2026-01-01");
    let t2 = task(2, "b", Priority::Low, Status::Pending, Some("2026-09-09 08:00"), "2026-01-01");
    let t3 = task(3, "c", Priority::Low, Status::Pending, None, "2026-01-01");
    let t4 = task(4, "d", Priority::Low, Status::Done, Some("2026-01-01"), "2026-01-01");
    let t5 = task(5, "e", Priority::Low, Status::Pending, Some("someday"), "2026-01-01");
    let mut v = vec![&t1, &t2, &t3, &t4];
    sort_tasks(&mut v, SortBy::Due);
    assert_eq!(ids(&v), vec![2, 1, 3, 4]);
    let t6 = task(6, "f", Priority::Low, Status::Pending, Some("later"), "2026-01-01");
    let mut w = vec![&t5, &t3, &t1, &t6];
    sort_tasks(&mut w, SortBy::Due);
    assert_eq!(ids(&w), vec![1, 6, 5, 3]);
}

#[test]
fn sort_is_stable_for_equal_keys() {
    let a = task(7, "first", Priority::Low, Status::Pending, None, "2026-01-01");
    let b = task(7, "second", Priority::Low, Status::Pending, None, "2026-01-01");
    let c = task(1, "third", Priority::Low, Status::Pending, None, "2026-01-01");
    let mut v = vec![&a, &b, &c];
    sort_tasks(&mut v, SortBy::Priority);
    let texts: Vec<&str> = v.iter().map(|t| t.text.as_str()).collect();
    assert_eq!(texts, vec!["third", "first", "second"]);
}

#[test]
fn list_and_search() {
    let data = sample();
    assert_eq!(ids(&cmd_list(&data, None, SortBy::Due)), vec![3, 1, 4, 2]);
    assert_eq!(ids(&cmd_list(&data, Some(Status::Pending), SortBy::Priority)), vec![1, 4, 3]);
    assert_eq!(ids(&cmd_search(&data, "  e  ", None).unwrap()), vec![4, 3]);
    assert_eq!(ids(&cmd_search(&data, "e", Some(Status::Done)).unwrap()), Vec::<u64>::new());
    assert!(matches!(cmd_search(&data, "  ", None), Err(TodoError::EmptyKeyword)));
}

// ---------------------------------------------------------------------------
// Table and statistics
// ---------------------------------------------------------------------------

#[test]
fn table_of_tasks() {
    let a = task(1, "写周报", Priority::High, Status::Pending, Some("2026-09-08"), "2026-09-01");
    let b = task(12, "buy", Priority::Low, Status::Done, None, "2026-09-02");
    let now = moment(2026, 9, 9, 12, 0);
    let lines = render_table_at(&vec![&a, &b], None, &now, false);
    assert_eq!(lines.len(), 4);
    assert_eq!(lines[0], "ID  状态 优先级 任务    截止         创建日期");
    assert_eq!(lines[1], "-".repeat(45));
    assert_eq!(lines[2], "1   待办 高     写周报  2026-09-08!  2026-09-01");
    assert_eq!(lines[3], "12  完成 低     buy     -            2026-09-02");
}

#[test]
fn table_columns_line_up() {
    let a = task(1, "写周报", Priority::High, Status::Pending, Some("2026-09-08"), "2026-09-01");
    let b = task(12, "buy", Priority::Low, Status::Done, None, "2026-09-02");
    let now = moment(2026, 9, 9, 12, 0);
    let lines = render_table_at(&vec![&a, &b], None, &now, false);
    // Every cell boundary of the header falls where the rows have one: the
    // created date starts at the same display column everywhere.
    let col = |line: &str, word: &str| {
        let idx = line.find(word).unwrap();
        unicode_width::UnicodeWidthStr::width(&line[..idx])
    };
    assert_eq!(col(&lines[0], "创建日期"), col(&lines[2], "2026-09-01"));
    assert_eq!(col(&lines[0], "创建日期"), col(&lines[3], "2026-09-02"));
    assert_eq!(col(&lines[0], "任务"), col(&lines[2], "写周报"));
    assert_eq!(col(&lines[0], "截止"), col(&lines[3], "-  "));
}

#[test]
fn colored_table_pads_by_visible_width() {
    let a = task(1, "x", Priority::High, Status::Pending, Some("2026-09-08"), "2026-09-01");
    let now = moment(2026, 9, 9, 12, 0);
    let lines = render_table_at(&vec![&a], None, &now, true);
    assert_eq!(
        lines[2],
        "1   待办 \x1b[31m高\x1b[0m     x     \x1b[31m2026-09-08!\x1b[0m  2026-09-01"
    );
}

#[test]
fn table_of_nothing() {
    let now = moment(2026, 9, 9, 12, 0);
    assert_eq!(render_table_at(&vec![], None, &now, false), vec!["（没有任务）".to_string()]);
    assert_eq!(render_table_at(&vec![], Some(Status::Done), &now, true), vec!["（没有任务，状态：done）".to_string()]);
    assert_eq!(render_tasks(&vec![], Some(Status::Pending), false), vec!["（没有任务，状态：pending）".to_string()]);
}

#[test]
fn statistics() {
    let data = sample();
    let now = moment(2026, 9, 9, 12, 0);
    assert_eq!(
        stats_at(&data, &now),
        vec![
            "任务总数：4".to_string(),
            "已完成：1".to_string(),
            "待办：3".to_string(),
            "已逾期：1".to_string(),
            "待办优先级分布：".to_string(),
            "  高优先级：2  ##".to_string(),
            "  中优先级：0  -".to_string(),
            "  低优先级：1  #".to_string(),
        ]
    );
    assert_eq!(cmd_stats(&Data::empty()), vec!["任务总数：0".to_string(), "已完成：0".to_string(), "待办：0".to_string()]);
}

// ---------------------------------------------------------------------------
// Laws on concrete values
// ---------------------------------------------------------------------------

#[test]
fn law_done_twice_is_done_once() {
    let mut once = sample();
    cmd_done(&mut once, &[1, 3]).unwrap();
    let mut twice = sample();
    cmd_done(&mut twice, &[1, 3]).unwrap();
    let msgs = cmd_done(&mut twice, &[1, 3]).unwrap();
    assert_eq!(msgs, vec!["任务 #1 已是完成状态。".to_string(), "任务 #3 已是完成状态。".to_string()]);
    let s1: Vec<Status> = once.tasks.iter().map(|t| t.status).collect();
    let s2: Vec<Status> = twice.tasks.iter().map(|t| t.status).collect();
    assert_eq!(s1, s2);
}

#[test]
fn law_undo_after_done_restores() {
    let mut data = sample();
    cmd_done(&mut data, &[4]).unwrap();
    cmd_undo(&mut data, 4).unwrap();
    let statuses: Vec<Status> = data.tasks.iter().map(|t| t.status).collect();
    assert_eq!(statuses, vec![Status::Pending, Status::Done, Status::Pending, Status::Pending]);
}

#[test]
fn law_deleted_ids_are_not_reused() {
    let mut data = sample();
    cmd_delete(&mut data, &[4]).unwrap();
    assert!(find_task(&data, 4).is_err());
    add_task(&mut data, "again", Priority::Low, None, "2026-09-10".to_string()).unwrap();
    assert_eq!(data.tasks.last().unwrap().id, 5);
    assert_eq!(find_task(&data, 5).unwrap().text, "again");
}

#[test]
fn law_pending_first_and_no_due_last() {
    let data = sample();
    for sort in [SortBy::Priority, SortBy::Created, SortBy::Due] {
        let v = cmd_list(&data, None, sort);
        let first_done = v.iter().position(|t| t.status == Status::Done).unwrap();
        assert!(v[first_done..].iter().all(|t| t.status == Status::Done));
    }
    let v = cmd_list(&data, Some(Status::Pending), SortBy::Due);
    assert_eq!(v.last().unwrap().due, None);
}

#[test]
fn law_search_ignores_case() {
    let data = sample();
    assert_eq!(ids(&cmd_search(&data, "READ", None).unwrap()), ids(&cmd_search(&data, "read", None).unwrap()));
}

#[test]
fn law_stats_add_up() {
    let mut data = sample();
    cmd_done(&mut data, &[3]).unwrap();
    let now = moment(2026, 9, 9, 12, 0);
    let lines = stats_at(&data, &now);
    assert_eq!(lines[1], "已完成：2");
    assert_eq!(lines[2], "待办：2");
    assert_eq!(lines[3], "已逾期：0");
    assert_eq!(lines[5], "  高优先级：2  ##");
}

#[test]
fn law_search_ignores_ascii_case() {
    let data = sample();
    assert_eq!(ids(&collect_tasks(&data, None, Some("Write CODE"))), ids(&collect_tasks(&data, None, Some("write code"))));
    assert_eq!(ids(&collect_tasks(&data, None, Some("rEAD"))), vec![3]);
}

#[test]
fn law_sort_unique_and_idempotent() {
    let data = sample();
    for sort in [SortBy::Priority, SortBy::Created, SortBy::Due] {
        let mut v1 = collect_tasks(&data, None, None);
        let mut v2 = v1.clone();
        v2.reverse();
        sort_tasks(&mut v1, sort);
        sort_tasks(&mut v2, sort);
        assert_eq!(ids(&v1), ids(&v2));
        let before = ids(&v1);
        sort_tasks(&mut v1, sort);
        assert_eq!(ids(&v1), before);
    }
}

#[test]
fn law_list_is_pending_then_done() {
    let mut data = sample();
    cmd_done(&mut data, &[3]).unwrap();
    for sort in [SortBy::Priority, SortBy::Created, SortBy::Due] {
        let all = ids(&cmd_list(&data, None, sort));
        let mut parts = ids(&cmd_list(&data, Some(Status::Pending), sort));
        parts.extend(ids(&cmd_list(&data, Some(Status::Done), sort)));
        assert_eq!(all, parts);
        assert_eq!(all.len(), data.tasks.len());
    }
}
