use vstd::prelude::*;

use crate::text::decimal;

verus! {

/// How urgent a task is.
#[derive(Clone, Copy, Debug, PartialEq, Eq, Structural)]
pub enum Priority {
    High,
    Medium,
    Low,
}

/// Whether a task is still to do.
#[derive(Clone, Copy, Debug, PartialEq, Eq, Structural)]
pub enum Status {
    Pending,
    Done,
}

/// The order in which a list of tasks is shown.
#[derive(Clone, Copy, Debug, PartialEq, Eq, Structural)]
pub enum SortBy {
    /// By priority, most urgent first.
    Priority,
    /// By creation date, oldest first.
    Created,
    /// By due time, earliest first; due texts that do not read after those
    /// that do, by text; tasks without a due time last.
    Due,
}

/// One task of the list.
pub struct Task {
    pub id: u64,
    pub text: String,
    pub priority: Priority,
    pub status: Status,
    /// The due time as the user wrote it ("YYYY-MM-DD" or "YYYY-MM-DD HH:MM").
    pub due: Option<String>,
    /// The creation date, "YYYY-MM-DD".
    pub created_at: String,
}

impl Clone for Task {
    fn clone(&self) -> (r: Self)
        ensures
            r == *self,
    {
        Task {
            id: self.id,
            text: self.text.clone(),
            priority: self.priority,
            status: self.status,
            due: match &self.due {
                Some(d) => Some(d.clone()),
                None => None,
            },
            created_at: self.created_at.clone(),
        }
    }
}

/// The whole task list: the tasks in the order they were added, and the id
/// that the next added task gets. Ids are never given twice, also after a
/// deletion.
pub struct Data {
    pub next_id: u64,
    pub tasks: Vec<Task>,
}

impl Data {
    /// Every task has an id of its own, and every id is below `next_id`.
    pub open spec fn well_formed(&self) -> bool {
        &&& forall|k: int| 0 <= k < self.tasks@.len() ==> #[trigger] self.tasks@[k].id < self.next_id
        &&& forall|a: int, b: int|
            0 <= a < self.tasks@.len() && 0 <= b < self.tasks@.len() && a != b
                ==> #[trigger] self.tasks@[a].id != #[trigger] self.tasks@[b].id
    }

    /// The list of a fresh start: no tasks, and the first id is 1.
    pub fn empty() -> (r: Data)
        ensures
            r.next_id == 1,
            r.tasks@.len() == 0,
            r.well_formed(),
    {
        Data { next_id: 1, tasks: Vec::new() }
    }
}

/// A task with another status.
pub open spec fn with_status(t: Task, s: Status) -> Task {
    Task {
        id: t.id,
        text: t.text,
        priority: t.priority,
        status: s,
        due: t.due,
        created_at: t.created_at,
    }
}

impl Priority {
    /// The sort weight of a priority: the smaller, the more urgent.
    pub open spec fn spec_weight(self) -> u8 {
        match self {
            Priority::High => 0,
            Priority::Medium => 1,
            Priority::Low => 2,
        }
    }

    /// The label shown for a priority.
    pub open spec fn spec_label(self) -> Seq<char> {
        match self {
            Priority::High => "高"@,
            Priority::Medium => "中"@,
            Priority::Low => "低"@,
        }
    }

    /// The terminal colour code of a priority.
    pub open spec fn spec_color(self) -> Seq<char> {
        match self {
            Priority::High => "\x1b[31m"@,
            Priority::Medium => "\x1b[33m"@,
            Priority::Low => "\x1b[32m"@,
        }
    }

    /// The display label: 高, 中 or 低.
    pub fn label(self) -> (r: &'static str)
        ensures
            r@ == self.spec_label(),
    {
        match self {
            Priority::High => "高",
            Priority::Medium => "中",
            Priority::Low => "低",
        }
    }

    /// The ANSI colour code: red for High, yellow for Medium, green for Low.
    pub fn color(self) -> (r: &'static str)
        ensures
            r@ == self.spec_color(),
    {
        match self {
            Priority::High => "\x1b[31m",
            Priority::Medium => "\x1b[33m",
            Priority::Low => "\x1b[32m",
        }
    }

    /// The sort weight: High 0, Medium 1, Low 2.
    pub fn weight(self) -> (r: u8)
        ensures
            r == self.spec_weight(),
    {
        match self {
            Priority::High => 0,
            Priority::Medium => 1,
            Priority::Low => 2,
        }
    }
}

/// What an operation on the list refuses.
#[derive(Clone, Copy, Debug, PartialEq, Eq, Structural)]
pub enum TodoError {
    /// The task text is empty or white space only.
    EmptyText,
    /// The due time is in neither accepted form.
    InvalidDue,
    /// No task has this id.
    NotFound(u64),
    /// An edit names nothing to change.
    NothingToEdit,
    /// The search keyword is empty or white space only.
    EmptyKeyword,
}

impl TodoError {
    /// The message shown for an error.
    pub open spec fn spec_message(self) -> Seq<char> {
        match self {
            TodoError::EmptyText => "任务内容不能为空。"@,
            TodoError::InvalidDue => "截止时间格式应为 YYYY-MM-DD 或 YYYY-MM-DD HH:MM。"@,
            TodoError::NotFound(id) => "不存在 ID 为 "@ + decimal(id as nat)
                + " 的任务。可用 todo list 查看。"@,
            TodoError::NothingToEdit => "请至少提供一项修改：--text / --priority / --due / --no-due。"@,
            TodoError::EmptyKeyword => "搜索关键词不能为空。"@,
        }
    }

    /// The message shown for this error.
    pub fn message(&self) -> (r: String)
        ensures
            r@ == self.spec_message(),
    {
        match self {
            TodoError::EmptyText => String::from_str("任务内容不能为空。"),
            TodoError::InvalidDue => String::from_str(
                "截止时间格式应为 YYYY-MM-DD 或 YYYY-MM-DD HH:MM。",
            ),
            TodoError::NotFound(id) => {
                let mut s = String::from_str("不存在 ID 为 ");
                let n = crate::text::decimal_text(*id);
                s.append(n.as_str());
                s.append(" 的任务。可用 todo list 查看。");
                s
            },
            TodoError::NothingToEdit => String::from_str(
                "请至少提供一项修改：--text / --priority / --due / --no-due。",
            ),
            TodoError::EmptyKeyword => String::from_str("搜索关键词不能为空。"),
        }
    }
}

} // verus!
