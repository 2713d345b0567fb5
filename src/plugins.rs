//! The matcher trees of the launcher plugins, built from the data that each
//! plugin gathers for a query.
use vstd::prelude::*;
use crate::candidate::{MatchView, SimpleMatch};
use crate::handlers::{CommandDisplayHandler, NoopMatcher, WildcardHandler};
use crate::matcher::{Matcher, StaticMatcher, DEFAULT_MAX_RESULTS};
use crate::text::{replace, replaced};
use crate::todo::{date_string, date_text, dates_wf, format_line, Date, Todo, TodoView};
use crate::watson::ProjectMatcher;

verus! {

/// `s` with `|`, `[` and `]` escaped by a backslash for a `sed` pattern.
pub open spec fn sed_escaped(s: Seq<char>) -> Seq<char> {
    replaced(replaced(replaced(s, "|"@, "\\|"@), "["@, "\\["@), "]"@, "\\]"@)
}

fn sed_escape(s: &str) -> (r: String)
    ensures
        r@ == sed_escaped(s@),
{
    proof {
        reveal_strlit("|");
        reveal_strlit("[");
        reveal_strlit("]");
    }
    let a = replace(s, "|", "\\|");
    let b = replace(a.as_str(), "[", "\\[");
    replace(b.as_str(), "]", "\\]")
}

/// The command that marks entry `t` of `file` as completed on `today`.
pub open spec fn complete_command(t: TodoView, today: Date, file: Seq<char>) -> Seq<char> {
    "exec|sed -i 's|"@ + sed_escaped(format_line(t)) + "|"@ + sed_escaped(format_line((t.0, t.1, Some(today))))
        + "|' "@ + file
}

/// The entries not yet completed, the last one first.
pub open spec fn open_entries(todos: Seq<TodoView>) -> Seq<TodoView>
    decreases todos.len(),
{
    if todos.len() == 0 {
        Seq::empty()
    } else {
        let later = open_entries(todos.drop_first());
        if todos[0].2 is None {
            later.push(todos[0])
        } else {
            later
        }
    }
}

/// The label of an open entry in the list.
pub open spec fn entry_label(t: TodoView, today: Date, file: Seq<char>) -> MatchView {
    (t.0, "text-x-generic"@, complete_command(t, today, file))
}

/// The command that appends a new entry created on `today` to `file`; `{}`
/// stands for its title.
pub open spec fn add_command(today: Date, file: Seq<char>) -> Seq<char> {
    "exec|echo '- [ ] {} (created at: "@ + date_text(today) + ", completed at: None)' >> "@ + file
}

pub open spec fn todo_views(todos: Seq<Todo>) -> Seq<TodoView> {
    todos.map_values(|t: Todo| t@)
}

/// Each child of `s` is a leaf that produces nothing.
pub open spec fn leaves(s: &StaticMatcher) -> bool {
    forall|i: int| 0 <= i < s.children@.len() ==> #[trigger] s.children@[i].1 is Noop
}

/// The list of open entries: selecting one marks it completed.
fn open_list(todos: &Vec<Todo>, today: Date, file: &str) -> (r: StaticMatcher)
    requires
        today.wf(),
        forall|i: int| 0 <= i < todos@.len() ==> dates_wf(#[trigger] todos@[i]@),
    ensures
        r.max_results == DEFAULT_MAX_RESULTS,
        leaves(&r),
        r.children@.len() == open_entries(todo_views(todos@)).len(),
        forall|i: int| 0 <= i < r.children@.len() ==>
            #[trigger] r.children@[i].0@ == entry_label(open_entries(todo_views(todos@))[i], today, file@),
{
    let mut list = StaticMatcher::new();
    let mut i: usize = todos.len();
    assert(todo_views(todos@).subrange(i as int, todos@.len() as int) =~= Seq::<TodoView>::empty());
    while i > 0
        invariant
            i <= todos@.len(),
            today.wf(),
            forall|k: int| 0 <= k < todos@.len() ==> dates_wf(#[trigger] todos@[k]@),
            list.max_results == DEFAULT_MAX_RESULTS,
            leaves(&list),
            list.children@.len() == open_entries(todo_views(todos@).subrange(i as int, todos@.len() as int)).len(),
            forall|k: int| 0 <= k < list.children@.len() ==>
                #[trigger] list.children@[k].0@ == entry_label(
                    open_entries(todo_views(todos@).subrange(i as int, todos@.len() as int))[k], today, file@),
        decreases i,
    {
        let ghost later = todo_views(todos@).subrange(i as int, todos@.len() as int);
        let ghost now = todo_views(todos@).subrange(i - 1, todos@.len() as int);
        assert(now.drop_first() =~= later);
        assert(now[0] == todos@[i - 1]@);
        let t = &todos[i - 1];
        if t.completed_at.is_none() {
            let incomplete = t.to_string();
            let done = Todo { title: t.title.clone(), created_at: t.created_at, completed_at: Some(today) };
            let complete = done.to_string();
            let command = String::from_str("exec|sed -i 's|").concat(sed_escape(incomplete.as_str()).as_str())
                .concat("|").concat(sed_escape(complete.as_str()).as_str()).concat("|' ").concat(file);
            let label = SimpleMatch::new(t.title.as_str(), "text-x-generic", command.as_str());
            let ghost old_children = list.children@;
            list = list.with_child(label, Matcher::Noop(NoopMatcher));
            assert forall|k: int| 0 <= k < list.children@.len() implies #[trigger] list.children@[k].0@ == entry_label(
                open_entries(now)[k], today, file@) by {
                if k < old_children.len() {
                    assert(list.children@[k] == old_children[k]);
                }
            }
            assert(leaves(&list)) by {
                assert forall|k: int| 0 <= k < list.children@.len() implies #[trigger] list.children@[k].1 is Noop by {
                    if k < old_children.len() {
                        assert(list.children@[k] == old_children[k]);
                    }
                }
            }
        }
        i = i - 1;
    }
    assert(todo_views(todos@).subrange(0, todos@.len() as int) =~= todo_views(todos@));
    list
}

/// The to-do plugin's tree: `list` holds the open entries, the last one
/// first, each completing itself in `file` when selected; `add` appends
/// an entry created on `today` whose title is the rest of the input.
pub fn todo_matcher(todos: &Vec<Todo>, today: Date, file: &str) -> (r: Matcher)
    requires
        today.wf(),
        forall|i: int| 0 <= i < todos@.len() ==> dates_wf(#[trigger] todos@[i]@),
    ensures
        r matches Matcher::Static(root) && {
            &&& root.max_results == DEFAULT_MAX_RESULTS
            &&& root.children@.len() == 2
            &&& root.children@[0].0@ == ("list"@, "text-x-generic"@, Seq::<char>::empty())
            &&& root.children@[1].0@ == ("add"@, "list-add"@, Seq::<char>::empty())
            &&& root.children@[0].1 matches Matcher::Static(list) && {
                &&& list.max_results == DEFAULT_MAX_RESULTS
                &&& leaves(&list)
                &&& list.children@.len() == open_entries(todo_views(todos@)).len()
                &&& forall|i: int| 0 <= i < list.children@.len() ==>
                    #[trigger] list.children@[i].0@ == entry_label(open_entries(todo_views(todos@))[i], today, file@)
            }
            &&& root.children@[1].1 matches Matcher::Wildcard(w) && w.title@ == "add {}"@ && w.icon@ == Seq::<char>::empty()
                && w.description@ == add_command(today, file@)
        },
{
    proof {
        reveal_strlit("");
    }
    let list = open_list(todos, today, file);
    let add = String::from_str("exec|echo '- [ ] {} (created at: ").concat(date_string(today).as_str())
        .concat(", completed at: None)' >> ").concat(file);
    let root = StaticMatcher::new()
        .with_child(SimpleMatch::new("list", "text-x-generic", ""), Matcher::Static(list))
        .with_child(SimpleMatch::new("add", "list-add", ""), Matcher::Wildcard(WildcardHandler::new("add {}", "", add.as_str())));
    Matcher::Static(root)
}

/// The timestamp plugin's tree: three labels whose selection copies the date
/// `date`, the date and time `datetime` and the Unix time `unix`.
pub fn timestamp_matcher(date: &str, datetime: &str, unix: &str) -> (r: Matcher)
    ensures
        r matches Matcher::Static(root) && {
            &&& root.max_results == DEFAULT_MAX_RESULTS
            &&& leaves(&root)
            &&& root.children@.len() == 3
            &&& root.children@[0].0@ == ("YYYY_MM_DD"@, "x-office-calendar"@, "copy|"@ + date@)
            &&& root.children@[1].0@ == ("YYYY_MM_DD_HH_MM_SS"@, "x-office-calendar"@, "copy|"@ + datetime@)
            &&& root.children@[2].0@ == ("UNIX_TIMESTAMP"@, "x-office-calendar"@, "copy|"@ + unix@)
        },
{
    let a = String::from_str("copy|").concat(date);
    let b = String::from_str("copy|").concat(datetime);
    let c = String::from_str("copy|").concat(unix);
    let root = StaticMatcher::new()
        .with_child(SimpleMatch::new("YYYY_MM_DD", "x-office-calendar", a.as_str()), Matcher::Noop(NoopMatcher))
        .with_child(SimpleMatch::new("YYYY_MM_DD_HH_MM_SS", "x-office-calendar", b.as_str()), Matcher::Noop(NoopMatcher))
        .with_child(SimpleMatch::new("UNIX_TIMESTAMP", "x-office-calendar", c.as_str()), Matcher::Noop(NoopMatcher));
    assert(leaves(&root));
    Matcher::Static(root)
}

/// The part of a path after its last `/`.
pub open spec fn last_segment(s: Seq<char>) -> Seq<char>
    decreases s.len(),
{
    if s.len() == 0 {
        s
    } else if s.last() == '/' {
        Seq::empty()
    } else {
        last_segment(s.drop_last()).push(s.last())
    }
}

/// The part of `path` after its last `/`.
pub fn project_name(path: &str) -> (r: String)
    ensures
        r@ == last_segment(path@),
{
    let n = path.unicode_len();
    let mut i: usize = n;
    assert(path@.subrange(0, n as int) =~= path@);
    assert(path@ =~= path@ + path@.subrange(n as int, n as int));
    assert(last_segment(path@) =~= last_segment(path@) + path@.subrange(n as int, n as int));
    while i > 0 && path.get_char(i - 1) != '/'
        invariant
            n == path@.len(),
            i <= n,
            last_segment(path@) == last_segment(path@.subrange(0, i as int)) + path@.subrange(i as int, n as int),
        decreases i,
    {
        let ghost s = path@.subrange(0, i as int);
        assert(s.drop_last() =~= path@.subrange(0, i - 1));
        assert(path@.subrange(i - 1, n as int) =~= seq![s.last()] + path@.subrange(i as int, n as int));
        assert(last_segment(s) == last_segment(s.drop_last()).push(s.last()));
        assert(last_segment(s.drop_last()).push(s.last()) + path@.subrange(i as int, n as int)
            =~= last_segment(s.drop_last()) + path@.subrange(i - 1, n as int));
        i = i - 1;
    }
    proof {
        assert(path@.subrange(0, n as int) =~= path@);
        assert(last_segment(path@) =~= last_segment(path@) + Seq::<char>::empty());
        if i > 0 {
            assert(path@.subrange(0, i as int).last() == '/');
        }
        assert(last_segment(path@.subrange(0, i as int)) =~= Seq::<char>::empty());
    }
    path.substring_char(i, n).to_string()
}

/// The label of a recent workspace.
pub open spec fn workspace_label(path: Seq<char>) -> MatchView {
    (last_segment(path), "folder"@, "exec|code \""@ + path + "\""@)
}

/// The largest number of recent workspaces shown for a partial name.
pub const MAX_WORKSPACES: usize = 10;

/// The workspace plugin's tree: one label per recent workspace, named after
/// its last path segment; selecting it opens the workspace.
pub fn workspace_matcher(paths: &Vec<String>) -> (r: Matcher)
    ensures
        r matches Matcher::Static(root) && {
            &&& root.max_results == MAX_WORKSPACES
            &&& leaves(&root)
            &&& root.children@.len() == paths@.len()
            &&& forall|i: int| 0 <= i < paths@.len() ==> #[trigger] root.children@[i].0@ == workspace_label(paths@[i]@)
        },
{
    let mut root = StaticMatcher::new().with_max_results(MAX_WORKSPACES);
    let mut i: usize = 0;
    while i < paths.len()
        invariant
            i <= paths@.len(),
            root.max_results == MAX_WORKSPACES,
            leaves(&root),
            root.children@.len() == i,
            forall|k: int| 0 <= k < i ==> #[trigger] root.children@[k].0@ == workspace_label(paths@[k]@),
        decreases paths.len() - i,
    {
        let path = paths[i].as_str();
        let name = project_name(path);
        let command = String::from_str("exec|code \"").concat(path).concat("\"");
        let ghost old_children = root.children@;
        root = root.with_child(SimpleMatch::new(name.as_str(), "folder", command.as_str()), Matcher::Noop(NoopMatcher));
        assert forall|k: int| 0 <= k < i + 1 implies #[trigger] root.children@[k].0@ == workspace_label(paths@[k]@) by {
            if k < i {
                assert(root.children@[k] == old_children[k]);
            }
        }
        assert(leaves(&root)) by {
            assert forall|k: int| 0 <= k < root.children@.len() implies #[trigger] root.children@[k].1 is Noop by {
                if k < i {
                    assert(root.children@[k] == old_children[k]);
                }
            }
        }
        i = i + 1;
    }
    Matcher::Static(root)
}

/// `s` without every leading `file://`.
pub open spec fn without_scheme(s: Seq<char>) -> Seq<char>
    decreases s.len(),
{
    if "file://"@.is_prefix_of(s) && s.len() >= 7 {
        without_scheme(s.subrange(7, s.len() as int))
    } else {
        s
    }
}

/// The paths of the recent entries that name a folder or, failing that, a
/// workspace, in order.
pub open spec fn entry_paths(entries: Seq<(Option<String>, Option<String>)>) -> Seq<Seq<char>>
    decreases entries.len(),
{
    if entries.len() == 0 {
        Seq::empty()
    } else {
        let earlier = entry_paths(entries.drop_last());
        match entries.last() {
            (Some(folder), _) => earlier.push(without_scheme(folder@)),
            (None, Some(workspace)) => earlier.push(without_scheme(workspace@)),
            (None, None) => earlier,
        }
    }
}

fn strip_scheme(s: &str) -> (r: String)
    ensures
        r@ == without_scheme(s@),
{
    proof {
        reveal_strlit("file://");
    }
    let n = s.unicode_len();
    let mut i: usize = 0;
    assert(s@.subrange(0, n as int) =~= s@);
    while n - i >= 7 && crate::text::starts_with(s.substring_char(i, n), "file://")
        invariant
            n == s@.len(),
            i <= n,
            without_scheme(s@.subrange(i as int, n as int)) == without_scheme(s@),
        decreases n - i,
    {
        assert(s@.subrange(i as int, n as int).subrange(7, n - i) =~= s@.subrange(i + 7, n as int));
        i = i + 7;
    }
    s.substring_char(i, n).to_string()
}

/// The paths of the recently opened folders and workspaces, each entry
/// being its folder URI and its workspace URI; an error when there is none.
pub fn recent_paths(entries: &Vec<(Option<String>, Option<String>)>) -> (r: Result<Vec<String>, String>)
    ensures
        r matches Ok(paths) ==> paths@.map_values(|p: String| p@) == entry_paths(entries@) && paths@.len() > 0,
        r is Err <==> entry_paths(entries@).len() == 0,
        r matches Err(e) ==> e@ == "No recent workspaces found"@,
{
    let mut out: Vec<String> = Vec::new();
    let mut i: usize = 0;
    while i < entries.len()
        invariant
            i <= entries@.len(),
            out@.map_values(|p: String| p@) == entry_paths(entries@.subrange(0, i as int)),
        decreases entries.len() - i,
    {
        assert(entries@.subrange(0, i + 1).drop_last() =~= entries@.subrange(0, i as int));
        let ghost before = out@;
        match &entries[i] {
            (Some(folder), _) => {
                out.push(strip_scheme(folder.as_str()));
                assert(out@.map_values(|p: String| p@) =~= before.map_values(|p: String| p@).push(out@.last()@));
            },
            (None, Some(workspace)) => {
                out.push(strip_scheme(workspace.as_str()));
                assert(out@.map_values(|p: String| p@) =~= before.map_values(|p: String| p@).push(out@.last()@));
            },
            (None, None) => {},
        }
        i = i + 1;
    }
    assert(entries@.subrange(0, entries@.len() as int) =~= entries@);
    if out.len() == 0 {
        Err(String::from_str("No recent workspaces found"))
    } else {
        Ok(out)
    }
}

/// The time-tracking plugin's tree: `stop <project>` while `active` names a
/// running project, then `start`, `log` and `report` with its day, week and
/// month reports.
pub fn watson_matcher(active: Option<String>, start: ProjectMatcher) -> (r: Matcher)
    ensures
        r matches Matcher::Static(root) && {
            let k: int = if active is Some { 1 } else { 0 };
            &&& root.max_results == DEFAULT_MAX_RESULTS
            &&& root.children@.len() == k + 3
            &&& (active matches Some(p) ==> root.children@[0].0@ == ("stop "@ + p@, "media-playback-stop"@, "exec|watson stop"@)
                && root.children@[0].1 is Noop)
            &&& root.children@[k].0@ == ("start"@, "media-playback-start"@, Seq::<char>::empty())
            &&& root.children@[k].1 == Matcher::Project(start)
            &&& root.children@[k + 1].0@ == ("log"@, "format-justify-left"@, Seq::<char>::empty())
            &&& root.children@[k + 1].1 matches Matcher::CommandDisplay(c) && c.command@ == "watson log -d -c"@
            &&& root.children@[k + 2].0@ == ("report"@, "document-properties"@, Seq::<char>::empty())
            &&& root.children@[k + 2].1 matches Matcher::Static(report) && {
                &&& report.children@.len() == 3
                &&& report.children@[0].0@ == ("day"@, "view-calendar-day"@, Seq::<char>::empty())
                &&& report.children@[0].1 matches Matcher::CommandDisplay(c) && c.command@ == "watson report -d"@
                &&& report.children@[1].0@ == ("week"@, "view-calendar-week"@, Seq::<char>::empty())
                &&& report.children@[1].1 matches Matcher::CommandDisplay(c) && c.command@ == "watson report -w"@
                &&& report.children@[2].0@ == ("month"@, "view-calendar-month"@, Seq::<char>::empty())
                &&& report.children@[2].1 matches Matcher::CommandDisplay(c) && c.command@ == "watson report -m"@
            }
        },
{
    proof {
        reveal_strlit("");
    }
    let mut root = StaticMatcher::new();
    match active {
        Some(project) => {
            let title = String::from_str("stop ").concat(project.as_str());
            root = root.with_child(
                SimpleMatch::new(title.as_str(), "media-playback-stop", "exec|watson stop"),
                Matcher::Noop(NoopMatcher),
            );
        },
        None => {},
    }
    let report = StaticMatcher::new()
        .with_child(SimpleMatch::new("day", "view-calendar-day", ""), Matcher::CommandDisplay(CommandDisplayHandler::new("watson report -d")))
        .with_child(SimpleMatch::new("week", "view-calendar-week", ""), Matcher::CommandDisplay(CommandDisplayHandler::new("watson report -w")))
        .with_child(SimpleMatch::new("month", "view-calendar-month", ""), Matcher::CommandDisplay(CommandDisplayHandler::new("watson report -m")));
    let root = root
        .with_child(SimpleMatch::new("start", "media-playback-start", ""), Matcher::Project(start))
        .with_child(SimpleMatch::new("log", "format-justify-left", ""), Matcher::CommandDisplay(CommandDisplayHandler::new("watson log -d -c")))
        .with_child(SimpleMatch::new("report", "document-properties", ""), Matcher::Static(report));
    Matcher::Static(root)
}

} // verus!
