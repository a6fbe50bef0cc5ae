//! A list of tasks, keyed by identifier, and the rules of changing it.
//! Loading and saving the list stays with the caller.

use crate::connection::io_error_text;
use crate::render::{decimal_string, decimal_text};
use std::collections::HashMap;
use vstd::prelude::*;
use vstd::string::StringExecFns;

verus! {

/// How far a task has come.
#[derive(Clone, Copy, Debug, PartialEq, Eq, Structural)]
pub enum Status {
    Todo,
    InProgress,
    Done,
}

/// One task. The identifier is the 128-bit value of its ULID.
#[derive(Clone, Debug)]
pub struct Task {
    pub id: u128,
    pub label: String,
    pub desc: String,
    pub priority: u8,
    pub status: Status,
}

/// What `str::to_lowercase` returns for the given text.
pub uninterp spec fn lowercase_text(text: Seq<char>) -> Seq<char>;

/// Calls `str::to_lowercase`, which gives the lowercase equivalent of the
/// text. The result depends on the text alone.
#[verifier::external_body]
pub(crate) fn to_lowercase(text: &str) -> (r: String)
    ensures
        r@ == lowercase_text(text@),
{
    text.to_lowercase()
}

/// The value that `ulid::Ulid::from_string` decodes from the given text,
/// or `None` where it returns an error.
pub uninterp spec fn ulid_value(text: Seq<char>) -> Option<u128>;

/// Calls `ulid::Ulid::from_string`, which decodes an identifier from its
/// 26 characters. The result depends on the text alone.
#[verifier::external_body]
pub(crate) fn ulid_from_string(text: &str) -> (r: Option<u128>)
    ensures
        r == ulid_value(text@),
{
    match ulid::Ulid::from_string(text) {
        Ok(id) => Some(id.0),
        Err(_) => None,
    }
}

/// The text that `ulid::Ulid::to_string` gives for the identifier with the
/// given value.
pub uninterp spec fn ulid_text(id: u128) -> Seq<char>;

/// Calls `ulid::Ulid::to_string`, which writes an identifier as 26
/// characters. The result depends on the value alone.
#[verifier::external_body]
pub(crate) fn ulid_to_string(id: u128) -> (r: String)
    ensures
        r@ == ulid_text(id),
{
    ulid::Ulid(id).to_string()
}

impl Status {
    /// The status that a word in lower case names: `todo`, `ip` or `done`.
    pub open spec fn named_lower(lower: Seq<char>) -> Option<Status> {
        if lower == "todo"@ {
            Some(Status::Todo)
        } else if lower == "ip"@ {
            Some(Status::InProgress)
        } else if lower == "done"@ {
            Some(Status::Done)
        } else {
            None
        }
    }

    /// The status that a word names, whatever its case.
    pub open spec fn named(word: Seq<char>) -> Option<Status> {
        Status::named_lower(lowercase_text(word))
    }

    /// Reads a status from a word in lower case.
    pub fn from_lowercase(lower: &str) -> (r: Option<Status>)
        ensures
            r == Status::named_lower(lower@),
    {
        let word = String::from_str(lower);
        if word == String::from_str("todo") {
            Some(Status::Todo)
        } else if word == String::from_str("ip") {
            Some(Status::InProgress)
        } else if word == String::from_str("done") {
            Some(Status::Done)
        } else {
            None
        }
    }

    /// The message for a word that names no status.
    pub open spec fn invalid_text(word: Seq<char>) -> Seq<char> {
        "'"@ + word + "' is not a valid status"@
    }

    /// Reads a status from a word, whatever its case. A word that names
    /// none is refused with a message that quotes it.
    pub fn from_str(s: &str) -> (r: Result<Status, String>)
        ensures
            match Status::named(s@) {
                Some(status) => r matches Ok(v) && v == status,
                None => r matches Err(msg) && msg@ == Status::invalid_text(s@),
            },
    {
        let lower = to_lowercase(s);
        match Status::from_lowercase(lower.as_str()) {
            Some(status) => Ok(status),
            None => Err(String::from_str("'").concat(s).concat("' is not a valid status")),
        }
    }

    /// The text of `label`.
    pub open spec fn label_text(self) -> Seq<char> {
        match self {
            Status::Todo => "TODO"@,
            Status::InProgress => "IN PROGRESS"@,
            Status::Done => "DONE"@,
        }
    }

    /// The status as it is shown to people.
    pub fn label(&self) -> (s: &'static str)
        ensures
            s@ == self.label_text(),
    {
        match self {
            Status::Todo => "TODO",
            Status::InProgress => "IN PROGRESS",
            Status::Done => "DONE",
        }
    }
}

/// The error of `serde_json`, carried as it came.
#[verifier::external_type_specification]
#[verifier::external_body]
pub struct ExJsonError(serde_json::Error);

/// Why the list of tasks could not be loaded.
#[derive(Debug)]
pub enum LoadError {
    Io(std::io::Error),
    Json(serde_json::Error),
    FileNotFound,
}

/// Calls `<serde_json::Error as ToString>::to_string`, which gives the
/// error's own description. Nothing is claimed of the text.
#[verifier::external_body]
pub(crate) fn json_error_text(e: &serde_json::Error) -> (s: String) {
    e.to_string()
}

/// The message for an I/O error whose own description is `inner`.
pub open spec fn io_message_text(inner: Seq<char>) -> Seq<char> {
    "I/O error: "@ + inner
}

/// The message for a JSON error whose own description is `inner`.
pub open spec fn json_message_text(inner: Seq<char>) -> Seq<char> {
    "JSON error: "@ + inner
}

/// The message for an I/O error whose own description is `inner`.
pub fn io_message(inner: &str) -> (s: String)
    ensures
        s@ == io_message_text(inner@),
{
    String::from_str("I/O error: ").concat(inner)
}

/// The message for a JSON error whose own description is `inner`.
pub fn json_message(inner: &str) -> (s: String)
    ensures
        s@ == json_message_text(inner@),
{
    String::from_str("JSON error: ").concat(inner)
}

/// The kinds of I/O errors that std tells apart.
#[verifier::external_type_specification]
pub struct ExErrorKind(std::io::ErrorKind);

/// `std::io::Error::kind` gives the kind of the error. Nothing is claimed
/// of which kind it is.
pub assume_specification[ std::io::Error::kind ](e: &std::io::Error) -> (kind: std::io::ErrorKind);

impl LoadError {
    /// A line of text that says what went wrong: `File not found`, or the
    /// inner error's own description after `I/O error: ` or `JSON error: `.
    pub fn message(&self) -> (s: String)
        ensures
            self is FileNotFound ==> s@ == "File not found"@,
            self is Io ==> exists|inner: Seq<char>| s@ == io_message_text(inner),
            self is Json ==> exists|inner: Seq<char>| s@ == json_message_text(inner),
    {
        match self {
            LoadError::FileNotFound => String::from_str("File not found"),
            LoadError::Io(e) => {
                let inner = io_error_text(e);
                let s = io_message(inner.as_str());
                assert(s@ == io_message_text(inner@));
                s
            },
            LoadError::Json(e) => {
                let inner = json_error_text(e);
                let s = json_message(inner.as_str());
                assert(s@ == json_message_text(inner@));
                s
            },
        }
    }

    /// The load error for an I/O error of the given kind: a missing file is
    /// told apart, and any other error is handed on as it came.
    pub fn for_kind(kind: std::io::ErrorKind, e: std::io::Error) -> (r: LoadError)
        ensures
            kind is NotFound ==> r is FileNotFound,
            !(kind is NotFound) ==> (r matches LoadError::Io(x) && x == e),
    {
        match kind {
            std::io::ErrorKind::NotFound => LoadError::FileNotFound,
            _ => LoadError::Io(e),
        }
    }

    /// The load error for an I/O error: `FileNotFound` where the error says
    /// that the file is missing, the error itself otherwise.
    pub fn from_io(e: std::io::Error) -> (r: LoadError)
        ensures
            r is FileNotFound || (r matches LoadError::Io(x) && x == e),
    {
        let kind = e.kind();
        LoadError::for_kind(kind, e)
    }
}

/// Why the list of tasks could not be saved.
#[derive(Debug)]
pub enum SaveError {
    Json(serde_json::Error),
    Io(std::io::Error),
}

impl SaveError {
    /// A line of text that says what went wrong: the inner error's own
    /// description after `JSON error: ` or `I/O error: `.
    pub fn message(&self) -> (s: String)
        ensures
            self is Io ==> exists|inner: Seq<char>| s@ == io_message_text(inner),
            self is Json ==> exists|inner: Seq<char>| s@ == json_message_text(inner),
    {
        match self {
            SaveError::Io(e) => {
                let inner = io_error_text(e);
                let s = io_message(inner.as_str());
                assert(s@ == io_message_text(inner@));
                s
            },
            SaveError::Json(e) => {
                let inner = json_error_text(e);
                let s = json_message(inner.as_str());
                assert(s@ == json_message_text(inner@));
                s
            },
        }
    }
}

/// Why no task manager could be made.
#[derive(Debug)]
pub enum TaskManagerError {
    Io(std::io::Error),
    Json(serde_json::Error),
}

impl TaskManagerError {
    /// A line of text that says what went wrong: the inner error's own
    /// description after `I/O error: ` or `JSON error: `.
    pub fn message(&self) -> (s: String)
        ensures
            self is Io ==> exists|inner: Seq<char>| s@ == io_message_text(inner),
            self is Json ==> exists|inner: Seq<char>| s@ == json_message_text(inner),
    {
        match self {
            TaskManagerError::Io(e) => {
                let inner = io_error_text(e);
                let s = io_message(inner.as_str());
                assert(s@ == io_message_text(inner@));
                s
            },
            TaskManagerError::Json(e) => {
                let inner = json_error_text(e);
                let s = json_message(inner.as_str());
                assert(s@ == json_message_text(inner@));
                s
            },
        }
    }
}

/// Where the list of tasks is kept between runs.
pub trait Saver {
    /// Stores the whole list.
    fn save(&self, tasks: &HashMap<u128, Task>) -> Result<(), SaveError>;

    /// Reads the whole list back.
    fn load_file(&self) -> Result<HashMap<u128, Task>, LoadError>;
}

/// Names the file in which the list of tasks is kept.
#[derive(Debug)]
pub struct LocalSaver {
    file_path: String,
}

impl LocalSaver {
    /// A saver for the file at `file_path`.
    pub fn new(file_path: &str) -> (saver: LocalSaver)
        ensures
            saver.path() == file_path@,
    {
        LocalSaver { file_path: String::from_str(file_path) }
    }

    /// The path of the file.
    pub closed spec fn path(&self) -> Seq<char> {
        self.file_path@
    }

    /// The path of the file.
    pub fn file_path(&self) -> (p: &str)
        ensures
            p@ == self.path(),
    {
        self.file_path.as_str()
    }
}

/// Keeps the serialized list of tasks in memory.
#[derive(Clone, Debug)]
pub struct MemorySaver {
    blob: String,
}

impl Default for MemorySaver {
    /// A saver that holds nothing yet.
    fn default() -> (saver: MemorySaver)
        ensures
            saver.contents() == Seq::<char>::empty(),
    {
        MemorySaver { blob: String::new() }
    }
}

impl MemorySaver {
    /// A saver that holds nothing yet.
    pub fn new() -> (saver: MemorySaver)
        ensures
            saver.contents() == Seq::<char>::empty(),
    {
        MemorySaver { blob: String::new() }
    }

    /// The text that was stored last.
    pub closed spec fn contents(&self) -> Seq<char> {
        self.blob@
    }

    /// Replaces what is stored by `blob`.
    pub fn store(&mut self, blob: String)
        ensures
            final(self).contents() == blob@,
    {
        self.blob = blob;
    }

    /// The text that was stored last.
    pub fn blob(&self) -> (text: &str)
        ensures
            text@ == self.contents(),
    {
        self.blob.as_str()
    }
}

/// How a removal ended.
#[derive(Clone, Copy, Debug, PartialEq, Eq, Structural)]
pub enum DeleteOutcome {
    /// The identifier is no ULID.
    InvalidId,
    /// No task has that identifier.
    NotFound,
    /// The task is gone, but the list could not be saved.
    SaveFailed,
    /// The task is gone and the list is saved.
    Deleted,
}

/// How a change ended.
#[derive(Clone, Copy, Debug, PartialEq, Eq, Structural)]
pub enum EditOutcome {
    /// The identifier is no ULID.
    InvalidId,
    /// No task has that identifier.
    NotFound,
    /// The task is changed, but the list could not be saved.
    SaveFailed(u128),
    /// The task with this identifier is changed and the list is saved.
    Edited(u128),
}

/// The list after a task was added: the new task, not yet begun, stands
/// under its identifier.
pub open spec fn created(
    tasks: Map<u128, Task>,
    id: u128,
    label: String,
    desc: String,
    priority: u8,
) -> Map<u128, Task> {
    tasks.insert(id, Task { id, label, desc, priority, status: Status::Todo })
}

/// The list after the task under `key` was changed: it keeps its
/// identifier and takes the new values.
pub open spec fn edited(
    tasks: Map<u128, Task>,
    key: u128,
    label: String,
    desc: String,
    priority: u8,
    status: Status,
) -> Map<u128, Task> {
    tasks.insert(key, Task { id: tasks[key].id, label, desc, priority, status })
}

/// Adds a task with the given identifier, not yet begun, and saves the
/// list. Returns whether the list was saved; the task is added either way.
pub fn create<T: Saver>(
    tasks: &mut HashMap<u128, Task>,
    id: u128,
    label: String,
    desc: String,
    priority: u8,
    saver: &T,
) -> (saved: bool)
    ensures
        final(tasks)@ == created(old(tasks)@, id, label, desc, priority),
{
    let task = Task { id, label, desc, priority, status: Status::Todo };
    tasks.insert(id, task);
    saver.save(tasks).is_ok()
}

/// Removes the task under `key` and saves the list. Nothing changes where
/// no task stands under `key`.
pub fn delete_key<T: Saver>(tasks: &mut HashMap<u128, Task>, key: u128, saver: &T) -> (r:
    DeleteOutcome)
    ensures
        if old(tasks)@.contains_key(key) {
            (r == DeleteOutcome::Deleted || r == DeleteOutcome::SaveFailed) && final(tasks)@ == old(tasks)@.remove(key)
        } else {
            r == DeleteOutcome::NotFound && final(tasks)@ == old(tasks)@
        },
{
    if tasks.remove(&key).is_none() {
        assert(tasks@ =~= old(tasks)@);
        return DeleteOutcome::NotFound;
    }
    if saver.save(tasks).is_err() {
        DeleteOutcome::SaveFailed
    } else {
        DeleteOutcome::Deleted
    }
}

/// Removes the task whose identifier `id` spells, and saves the list.
/// Nothing changes where `id` is no ULID or names no task.
pub fn delete<T: Saver>(tasks: &mut HashMap<u128, Task>, id: &str, saver: &T) -> (r: DeleteOutcome)
    ensures
        match ulid_value(id@) {
            None => r == DeleteOutcome::InvalidId && final(tasks)@ == old(tasks)@,
            Some(key) => if old(tasks)@.contains_key(key) {
                (r == DeleteOutcome::Deleted || r == DeleteOutcome::SaveFailed) && final(tasks)@
                    == old(tasks)@.remove(key)
            } else {
                r == DeleteOutcome::NotFound && final(tasks)@ == old(tasks)@
            },
        },
{
    match ulid_from_string(id) {
        Some(key) => delete_key(tasks, key, saver),
        None => DeleteOutcome::InvalidId,
    }
}

/// Gives the task under `key` a new label, description, priority and
/// status, and saves the list. Nothing changes where no task stands under
/// `key`.
pub fn edit_key<T: Saver>(
    tasks: &mut HashMap<u128, Task>,
    key: u128,
    label: String,
    desc: String,
    priority: u8,
    status: Status,
    saver: &T,
) -> (r: EditOutcome)
    ensures
        if old(tasks)@.contains_key(key) {
            (r == EditOutcome::Edited(key) || r == EditOutcome::SaveFailed(key)) && final(tasks)@
                == edited(old(tasks)@, key, label, desc, priority, status)
        } else {
            r == EditOutcome::NotFound && final(tasks)@ == old(tasks)@
        },
{
    let id: u128 = match tasks.get(&key) {
        Some(task) => task.id,
        None => {
            return EditOutcome::NotFound;
        },
    };
    tasks.insert(key, Task { id, label, desc, priority, status });
    if saver.save(tasks).is_err() {
        EditOutcome::SaveFailed(key)
    } else {
        EditOutcome::Edited(key)
    }
}

/// Gives the task whose identifier `target_id` spells a new label,
/// description, priority and status, and saves the list. Nothing changes
/// where `target_id` is no ULID or names no task.
pub fn edit<T: Saver>(
    tasks: &mut HashMap<u128, Task>,
    target_id: &str,
    label: String,
    desc: String,
    priority: u8,
    status: Status,
    saver: &T,
) -> (r: EditOutcome)
    ensures
        match ulid_value(target_id@) {
            None => r == EditOutcome::InvalidId && final(tasks)@ == old(tasks)@,
            Some(key) => if old(tasks)@.contains_key(key) {
                (r == EditOutcome::Edited(key) || r == EditOutcome::SaveFailed(key)) && final(tasks)@ == edited(old(tasks)@, key, label, desc, priority, status)
            } else {
                r == EditOutcome::NotFound && final(tasks)@ == old(tasks)@
            },
        },
{
    match ulid_from_string(target_id) {
        Some(key) => edit_key(tasks, key, label, desc, priority, status, saver),
        None => EditOutcome::InvalidId,
    }
}

/// The rule that frames a task on the screen.
pub open spec fn rule_text() -> Seq<char> {
    "-------------------------"@
}

/// A task as it is shown to people, with its identifier written as `id`:
/// a rule, one line each for the label, the description, the priority, the
/// status and the identifier, and a rule again, each line ended by a line
/// feed.
pub open spec fn pretty_text_with(task: Task, id: Seq<char>) -> Seq<char> {
    rule_text() + "\n"@ + "Label: "@ + task.label@ + "\n"@ + "Description: "@ + task.desc@ + "\n"@
        + "Priority: "@ + decimal_text(task.priority as nat) + "\n"@ + "Status: "@
        + task.status.label_text() + "\n"@ + "Task ID: "@ + id + "\n"@ + rule_text() + "\n"@
}

/// A task as it is shown to people, its identifier written as a ULID.
pub open spec fn pretty_text(task: Task) -> Seq<char> {
    pretty_text_with(task, ulid_text(task.id))
}

/// The text that shows `task` to people.
pub fn task_pretty(task: &Task) -> (text: String)
    ensures
        text@ == pretty_text(*task),
{
    let id = ulid_to_string(task.id);
    task_pretty_with(task, id.as_str())
}

/// The text that shows `task` to people, with its identifier written as
/// `id`.
pub fn task_pretty_with(task: &Task, id: &str) -> (text: String)
    ensures
        text@ == pretty_text_with(*task, id@),
{
    let priority = decimal_string(task.priority as u64);
    let mut text = String::from_str("-------------------------");
    text.append("\n");
    text.append("Label: ");
    text.append(task.label.as_str());
    text.append("\n");
    text.append("Description: ");
    text.append(task.desc.as_str());
    text.append("\n");
    text.append("Priority: ");
    text.append(priority.as_str());
    text.append("\n");
    text.append("Status: ");
    text.append(task.status.label());
    text.append("\n");
    text.append("Task ID: ");
    text.append(id);
    text.append("\n");
    text.append("-------------------------");
    text.append("\n");
    text
}

/// The list to begin with, from what loading gave: the list that was
/// loaded; an empty list where no file was found; the error otherwise.
pub fn tasks_from_load(loaded: Result<HashMap<u128, Task>, LoadError>) -> (r: Result<
    HashMap<u128, Task>,
    TaskManagerError,
>)
    ensures
        match loaded {
            Ok(tasks) => r matches Ok(t) && t == tasks,
            Err(LoadError::FileNotFound) => r matches Ok(t) && t@ == Map::<u128, Task>::empty(),
            Err(LoadError::Json(e)) => r matches Err(TaskManagerError::Json(x)) && x == e,
            Err(LoadError::Io(e)) => r matches Err(TaskManagerError::Io(x)) && x == e,
        },
{
    match loaded {
        Ok(tasks) => Ok(tasks),
        Err(LoadError::FileNotFound) => Ok(HashMap::new()),
        Err(LoadError::Json(e)) => Err(TaskManagerError::Json(e)),
        Err(LoadError::Io(e)) => Err(TaskManagerError::Io(e)),
    }
}

/// The list of tasks together with the place where it is kept.
pub struct TaskManager<T: Saver> {
    tasks: HashMap<u128, Task>,
    saver: T,
}

impl<T: Saver> View for TaskManager<T> {
    type V = Map<u128, Task>;

    /// The tasks, each under its identifier. The place where they are kept
    /// is `keeper`.
    closed spec fn view(&self) -> Map<u128, Task> {
        self.tasks@
    }
}

impl<T: Saver + Default> Default for TaskManager<T> {
    /// A manager with no task, which keeps its list with the saver that `T`
    /// has by default.
    fn default() -> (manager: Self)
        ensures
            manager@ == Map::<u128, Task>::empty(),
    {
        TaskManager { tasks: HashMap::new(), saver: T::default() }
    }
}

impl<T: Saver> TaskManager<T> {
    /// A manager of the list that `saver` holds. It begins with an empty
    /// list where the saver finds no file, and fails where the saver fails
    /// otherwise. A manager that is made keeps `saver` for its list.
    pub fn new(saver: T) -> (r: Result<Self, TaskManagerError>)
        ensures
            r matches Ok(manager) ==> manager.keeper() == saver,
    {
        let loaded = saver.load_file();
        TaskManager::from_loaded(saver, loaded)
    }

    /// A manager that keeps its list with `saver`, from what loading the
    /// list gave: it begins with the list that was loaded, or with an empty
    /// list where no file was found; any other failure to load is handed
    /// on, and no manager is made.
    pub fn from_loaded(saver: T, loaded: Result<HashMap<u128, Task>, LoadError>) -> (r: Result<
        Self,
        TaskManagerError,
    >)
        ensures
            match loaded {
                Ok(tasks) => r matches Ok(manager) && manager@ == tasks@ && manager.keeper()
                    == saver,
                Err(LoadError::FileNotFound) => r matches Ok(manager) && manager@ == Map::<
                    u128,
                    Task,
                >::empty() && manager.keeper() == saver,
                Err(LoadError::Json(e)) => r matches Err(TaskManagerError::Json(x)) && x == e,
                Err(LoadError::Io(e)) => r matches Err(TaskManagerError::Io(x)) && x == e,
            },
    {
        match tasks_from_load(loaded) {
            Ok(tasks) => Ok(TaskManager { tasks, saver }),
            Err(e) => Err(e),
        }
    }

    /// The place where this manager keeps its list.
    pub closed spec fn keeper(&self) -> T {
        self.saver
    }

    /// The tasks, each under its identifier.
    pub fn tasks(&self) -> (tasks: &HashMap<u128, Task>)
        ensures
            tasks@ == self@,
    {
        &self.tasks
    }

    /// Adds a task with the given identifier, not yet begun. Returns
    /// whether the list was saved.
    pub fn create_task(&mut self, id: u128, label: String, desc: String, priority: u8) -> (saved:
        bool)
        ensures
            final(self)@ == created(old(self)@, id, label, desc, priority),
            final(self).keeper() == old(self).keeper(),
    {
        create(&mut self.tasks, id, label, desc, priority, &self.saver)
    }

    /// Removes the task whose identifier `id` spells.
    pub fn delete_task(&mut self, id: &str) -> (r: DeleteOutcome)
        ensures
            match ulid_value(id@) {
                None => r == DeleteOutcome::InvalidId && final(self)@ == old(self)@,
                Some(key) => if old(self)@.contains_key(key) {
                    (r == DeleteOutcome::Deleted || r == DeleteOutcome::SaveFailed) && final(self)@
                        == old(self)@.remove(key)
                } else {
                    r == DeleteOutcome::NotFound && final(self)@ == old(self)@
                },
            },
            final(self).keeper() == old(self).keeper(),
    {
        delete(&mut self.tasks, id, &self.saver)
    }

    /// Gives the task whose identifier `target_id` spells new values.
    pub fn edit_task(
        &mut self,
        target_id: &str,
        label: String,
        desc: String,
        priority: u8,
        status: Status,
    ) -> (r: EditOutcome)
        ensures
            match ulid_value(target_id@) {
                None => r == EditOutcome::InvalidId && final(self)@ == old(self)@,
                Some(key) => if old(self)@.contains_key(key) {
                    (r == EditOutcome::Edited(key) || r == EditOutcome::SaveFailed(key))
                        && final(self)@ == edited(old(self)@, key, label, desc, priority, status)
                } else {
                    r == EditOutcome::NotFound && final(self)@ == old(self)@
                },
            },
            final(self).keeper() == old(self).keeper(),
    {
        edit(&mut self.tasks, target_id, label, desc, priority, status, &self.saver)
    }
}

} // verus!
