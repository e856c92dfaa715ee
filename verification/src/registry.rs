use vstd::prelude::*;
use vstd::string::StringExecFns;

use crate::codec;
use crate::task::{Task, TaskView};

verus! {

/// The position of the first task at or after `i` whose name is `name`,
/// if any.
pub open spec fn find_from(s: Seq<TaskView>, name: Seq<char>, i: int) -> Option<int>
    decreases s.len() - i,
{
    if i < 0 || i >= s.len() {
        None
    } else if s[i].name == name {
        Some(i)
    } else {
        find_from(s, name, i + 1)
    }
}

/// The position of the first task named `name`, if any.
pub open spec fn find_index(s: Seq<TaskView>, name: Seq<char>) -> Option<int> {
    find_from(s, name, 0)
}

/// First-match lookup: `find_index` names the first position holding `name`,
/// every earlier position holds some other name, and it is `None` exactly
/// when no position holds `name`.
pub proof fn lemma_find_index_first(s: Seq<TaskView>, name: Seq<char>)
    ensures
        match find_index(s, name) {
            Some(i) => {
                &&& 0 <= i < s.len()
                &&& s[i].name == name
                &&& forall|j: int| 0 <= j < i ==> s[j].name != name
            },
            None => forall|j: int| 0 <= j < s.len() ==> s[j].name != name,
        },
{
    lemma_find_from_first(s, name, 0);
}

proof fn lemma_find_from_first(s: Seq<TaskView>, name: Seq<char>, i: int)
    requires
        0 <= i <= s.len(),
    ensures
        match find_from(s, name, i) {
            Some(k) => {
                &&& i <= k < s.len()
                &&& s[k].name == name
                &&& forall|j: int| i <= j < k ==> s[j].name != name
            },
            None => forall|j: int| i <= j < s.len() ==> s[j].name != name,
        },
    decreases s.len() - i,
{
    if i < s.len() && s[i].name != name {
        lemma_find_from_first(s, name, i + 1);
    }
}

/// One command of the console menu surface, in menu order.
#[derive(Clone, Copy, PartialEq, Eq, Structural, Debug)]
pub enum Command {
    AddTask,
    FindTask,
    EditTask,
    RemoveTask,
    PrintTasks,
    StoreToFile,
    ReadFromFile,
}

/// Maps a command selector line to its menu entry: the digits one through
/// seven name the seven operations; any other line is unrecognized (`None`),
/// on which the adapter performs no operation and the collection stays
/// untouched.
pub fn command_from_str(s: &String) -> (r: Option<Command>)
    ensures
        match r {
            Some(c) => (c == Command::AddTask && s@ == "1"@) || (c == Command::FindTask && s@
                == "2"@) || (c == Command::EditTask && s@ == "3"@) || (c == Command::RemoveTask
                && s@ == "4"@) || (c == Command::PrintTasks && s@ == "5"@) || (c
                == Command::StoreToFile && s@ == "6"@) || (c == Command::ReadFromFile && s@
                == "7"@),
            None => s@ != "1"@ && s@ != "2"@ && s@ != "3"@ && s@ != "4"@ && s@ != "5"@ && s@
                != "6"@ && s@ != "7"@,
        },
{
    if s.eq(&String::from_str("1")) {
        return Some(Command::AddTask);
    }
    if s.eq(&String::from_str("2")) {
        return Some(Command::FindTask);
    }
    if s.eq(&String::from_str("3")) {
        return Some(Command::EditTask);
    }
    if s.eq(&String::from_str("4")) {
        return Some(Command::RemoveTask);
    }
    if s.eq(&String::from_str("5")) {
        return Some(Command::PrintTasks);
    }
    if s.eq(&String::from_str("6")) {
        return Some(Command::StoreToFile);
    }
    if s.eq(&String::from_str("7")) {
        return Some(Command::ReadFromFile);
    }
    None
}

/// Removal keeps relative order: dropping the element at `i` shrinks the
/// sequence by exactly one, every earlier task keeps its position, and every
/// later task moves up by one.
pub proof fn lemma_remove_keeps_order(s: Seq<TaskView>, i: int)
    requires
        0 <= i < s.len(),
    ensures
        s.remove(i).len() == s.len() - 1,
        forall|j: int| 0 <= j < i ==> s.remove(i)[j] == s[j],
        forall|j: int| i <= j < s.len() - 1 ==> s.remove(i)[j] == s[j + 1],
{
}

/// The owning collection of tasks: an ordered sequence, appended to by `add`,
/// searched, edited and shrunk by first-match on the task name.
pub struct TasksManager {
    tasks: Vec<Task>,
}

impl View for TasksManager {
    type V = Seq<TaskView>;

    closed spec fn view(&self) -> Seq<TaskView> {
        self.tasks.deep_view()
    }
}

impl TasksManager {
    /// An empty collection.
    pub fn new() -> (m: TasksManager)
        ensures
            m@ == Seq::<TaskView>::empty(),
    {
        let m = TasksManager { tasks: Vec::new() };
        assert(m@ =~= Seq::<TaskView>::empty());
        m
    }

    /// All tasks, in insertion order.
    pub fn tasks(&self) -> (r: &Vec<Task>)
        ensures
            r.deep_view() == self@,
    {
        &self.tasks
    }

    /// How many tasks are held.
    pub fn len(&self) -> (n: usize)
        ensures
            n == self@.len(),
    {
        self.tasks.len()
    }

    /// Appends `task` at the end; insertion order is kept.
    pub fn add_task(&mut self, task: Task)
        ensures
            final(self)@ == old(self)@.push(task.deep_view()),
    {
        self.tasks.push(task);
        assert(self@ =~= old(self)@.push(task.deep_view()));
    }

    /// Returns the position of the first task whose name equals `name`
    /// exactly, or `None` if no task carries that name.
    pub fn find_task(&self, name: String) -> (r: Option<usize>)
        ensures
            match r {
                Some(i) => find_index(self@, name@) == Some(i as int),
                None => find_index(self@, name@) is None,
            },
    {
        let n = self.tasks.len();
        let mut i: usize = 0;
        while i < n
            invariant
                n == self.tasks.len(),
                i <= n,
                find_index(self@, name@) == find_from(self@, name@, i as int),
            decreases n - i,
        {
            if self.tasks[i].name == name {
                return Some(i);
            }
            i = i + 1;
        }
        None
    }

    /// Removes the first task named `name`: the sequence loses exactly that
    /// element and keeps every other in order. On a missing name the
    /// collection is unchanged and the failure message names the task.
    pub fn remove_task(&mut self, name: &str) -> (r: Result<String, String>)
        ensures
            match find_index(old(self)@, name@) {
                Some(i) => {
                    &&& r matches Ok(m) && m@ == "Task \""@ + name@ + "\" removed successfully"@
                    &&& final(self)@ == old(self)@.remove(i)
                    &&& final(self)@.len() == old(self)@.len() - 1
                },
                None => {
                    &&& r matches Err(m) && m@ == "Task with name \""@ + name@
                        + "\" doesn't exist"@
                    &&& final(self)@ == old(self)@
                },
            },
    {
        match self.find_task(name.to_owned()) {
            Some(index) => {
                proof {
                    lemma_find_index_first(old(self)@, name@);
                }
                self.tasks.remove(index);
                proof {
                    assert(self@ =~= old(self)@.remove(index as int));
                }
                let m = String::from_str("Task \"").concat(name).concat(
                    "\" removed successfully",
                );
                Ok(m)
            },
            None => {
                let m = String::from_str("Task with name \"").concat(name).concat(
                    "\" doesn't exist",
                );
                Err(m)
            },
        }
    }

    /// Replaces name, description and priority of the first task named
    /// `name`, preserving its creation time and its position. On a missing
    /// name the collection is unchanged and the failure message names the
    /// task.
    pub fn edit_task(&mut self, name: &str, updated_task: Task) -> (r: Result<String, String>)
        ensures
            match find_index(old(self)@, name@) {
                Some(i) => {
                    &&& r matches Ok(m) && m@ == "Task \""@ + name@ + "\" updated successfully"@
                    &&& final(self)@ == old(self)@.update(
                        i,
                        TaskView {
                            name: updated_task.deep_view().name,
                            description: updated_task.deep_view().description,
                            priority: updated_task.deep_view().priority,
                            add_time: old(self)@[i].add_time,
                        },
                    )
                },
                None => {
                    &&& r matches Err(m) && m@ == "Task with name \""@ + name@
                        + "\" doesn't exist"@
                    &&& final(self)@ == old(self)@
                },
            },
    {
        match self.find_task(name.to_owned()) {
            Some(index) => {
                proof {
                    lemma_find_index_first(old(self)@, name@);
                }
                let kept_time = self.tasks[index].add_time;
                let new_task = Task {
                    name: updated_task.name,
                    description: updated_task.description,
                    priority: updated_task.priority,
                    add_time: kept_time,
                };
                self.tasks.set(index, new_task);
                proof {
                    assert(self@ =~= old(self)@.update(
                        index as int,
                        TaskView {
                            name: updated_task.deep_view().name,
                            description: updated_task.deep_view().description,
                            priority: updated_task.deep_view().priority,
                            add_time: old(self)@[index as int].add_time,
                        },
                    ));
                }
                let m = String::from_str("Task \"").concat(name).concat(
                    "\" updated successfully",
                );
                Ok(m)
            },
            None => {
                let m = String::from_str("Task with name \"").concat(name).concat(
                    "\" doesn't exist",
                );
                Err(m)
            },
        }
    }

    /// Every held creation timestamp is in range.
    pub open spec fn times_wf(&self) -> bool {
        forall|i: int| 0 <= i < self@.len() ==> (#[trigger] self@[i]).add_time.wf()
    }

    /// Serializes the whole collection to the persisted byte form.
    pub fn store_to_bytes(&self) -> (out: Vec<u8>)
        requires
            self.times_wf(),
        ensures
            out@ == codec::render_doc(self@),
    {
        codec::render_tasks(&self.tasks)
    }

    /// Replaces the whole collection with the parse of `data`, all or
    /// nothing: on a malformed document the collection is untouched and the
    /// failure is reported.
    pub fn load_from_bytes(&mut self, data: &Vec<u8>) -> (r: Result<String, String>)
        ensures
            match codec::parse_doc(data@) {
                Some(vs) => {
                    &&& r matches Ok(m) && m@ == "Data read successfully"@
                    &&& final(self)@ == vs
                    &&& final(self).times_wf()
                },
                None => {
                    &&& r matches Err(m) && m@ == "Error reading file: not a stored task list"@
                    &&& final(self)@ == old(self)@
                },
            },
    {
        match codec::parse_tasks(data) {
            Some(ts) => {
                self.tasks = ts;
                Ok(String::from_str("Data read successfully"))
            },
            None => Err(String::from_str("Error reading file: not a stored task list")),
        }
    }
}

} // verus!
