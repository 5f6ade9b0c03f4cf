//! What happens to the browser's state when a command arrives: which
//! directory is put on display, what enters the cache and the history,
//! and what is left for the driver to do.

use vstd::prelude::*;
use crate::cache::{cache_valid, without, DirectoryCache, SlotView};
use crate::file_system::{
    cache_after_request, drives_of, get_directory_contents, get_directory_item_count,
    invalidate_cache, needs_fetch, requested_page, served, tree_of, PAGE_SIZE,
};
use crate::history::{
    can_go_back, can_go_forward, current_of, history_valid, paths_of, pushed, went_back,
    went_forward,
};
use crate::listing::visible;
use crate::models::{
    details_of, path_view_of, raws_of, AppState, AppView, DetailView, FileDetail, RawEntry,
    RawView,
};
use crate::path::{child_of, parent_of, FsPath, PathView};
use crate::tree::{
    expansion_needs_listing, expansion_needs_roots, lemma_loaded_without_listing,
    lemma_loaded_without_roots, load_subdirectories, loaded, selected, update_selection,
    wants_listing, wants_roots,
};

verus! {

/// The test that keeps the directories beside the one called `name`.
pub open spec fn is_sibling(name: Seq<char>) -> spec_fn(RawView) -> bool {
    |e: RawView| e.is_dir && e.name != name
}

/// The directories worth warming after a visit to `visited`: its parent,
/// and then each directory among the parent's entries but `visited`
/// itself, in the order of the entries. A path without a parent has
/// none.
pub open spec fn preload_targets(visited: PathView, parent_entries: Seq<RawView>) -> Seq<PathView> {
    match parent_of(visited) {
        None => Seq::empty(),
        Some(parent) => seq![parent] + parent_entries.filter(
            is_sibling(visited.segments.last()),
        ).map_values(|e: RawView| child_of(parent, e.name)),
    }
}

/// Names the directories to preload after a visit to `visited`, given
/// the raw entries of its parent. A parent that could not be read has no
/// entries, and only the parent itself is named.
pub fn preload_parent_and_siblings(visited: &FsPath, parent_entries: &Vec<RawEntry>) -> (r: Vec<
    FsPath,
>)
    ensures
        paths_of(r@) == preload_targets(visited@, raws_of(parent_entries@)),
{
    let mut out: Vec<FsPath> = Vec::new();
    let parent = match visited.parent() {
        Some(p) => p,
        None => {
            proof {
                assert(paths_of(out@) =~= Seq::<PathView>::empty());
            }
            return out;
        },
    };
    let own = &visited.segments[visited.segments.len() - 1];
    let ghost name = visited@.segments.last();
    let ghost all = raws_of(parent_entries@);
    out.push(parent.clone());
    let mut i: usize = 0;
    proof {
        reveal(Seq::filter);
        assert(all.take(0).filter(is_sibling(name)) =~= Seq::<RawView>::empty());
    }
    while i < parent_entries.len()
        invariant
            i <= parent_entries.len(),
            all == raws_of(parent_entries@),
            own@ == name,
            out.len() == 1 + all.take(i as int).filter(is_sibling(name)).len(),
            out[0]@ == parent@,
            forall|j: int|
                1 <= j < out.len() ==> (#[trigger] out[j])@ == child_of(
                    parent@,
                    all.take(i as int).filter(is_sibling(name))[j - 1].name,
                ),
        decreases parent_entries.len() - i,
    {
        let e = &parent_entries[i];
        proof {
            assert(all.take(i as int + 1) =~= all.take(i as int).push(e@));
            all.take(i as int).lemma_filter_push(e@, is_sibling(name));
        }
        if e.is_dir && e.name != *own {
            out.push(parent.join(e.name.as_str()));
        }
        i += 1;
    }
    proof {
        assert(all.take(parent_entries.len() as int) =~= all);
        assert(paths_of(out@) =~= preload_targets(visited@, all));
    }
    out
}

/// What a command is.
pub ghost enum CommandView {
    NavigateTo(PathView),
    OpenFile(PathView),
    SelectDirectory(PathView),
    LoadSubdirectories(PathView),
    ResetCursor,
    UpdateFileList(Seq<DetailView>),
    NavigateUp,
    NavigateBack,
    NavigateForward,
    RefreshDirectory,
    NavigateHome,
    Other,
}

/// A command to the browser.
#[derive(Debug)]
pub enum Command {
    /// Show the directory at this path.
    NavigateTo(FsPath),
    /// Open the file at this path with the program the system has for it.
    OpenFile(FsPath),
    /// Show the directory at this path and record the visit.
    SelectDirectory(FsPath),
    /// Open the tree node with this path.
    LoadSubdirectories(FsPath),
    /// Put the cursor back to its normal shape.
    ResetCursor,
    /// Put these entries on display.
    UpdateFileList(Vec<FileDetail>),
    /// Show the parent of the directory that is shown.
    NavigateUp,
    /// Step back in the history.
    NavigateBack,
    /// Step forward in the history.
    NavigateForward,
    /// Read the directory that is shown anew.
    RefreshDirectory,
    /// Show the home directory.
    NavigateHome,
    /// Any command that the browser does not know.
    Other,
}

impl View for Command {
    type V = CommandView;

    open spec fn view(&self) -> CommandView {
        match self {
            Command::NavigateTo(p) => CommandView::NavigateTo(p@),
            Command::OpenFile(p) => CommandView::OpenFile(p@),
            Command::SelectDirectory(p) => CommandView::SelectDirectory(p@),
            Command::LoadSubdirectories(p) => CommandView::LoadSubdirectories(p@),
            Command::ResetCursor => CommandView::ResetCursor,
            Command::UpdateFileList(files) => CommandView::UpdateFileList(details_of(files@)),
            Command::NavigateUp => CommandView::NavigateUp,
            Command::NavigateBack => CommandView::NavigateBack,
            Command::NavigateForward => CommandView::NavigateForward,
            Command::RefreshDirectory => CommandView::RefreshDirectory,
            Command::NavigateHome => CommandView::NavigateHome,
            Command::Other => CommandView::Other,
        }
    }
}

/// What an effect is.
pub ghost enum EffectView {
    Preload(PathView),
    OpenFile(PathView),
    LoadRemainder(PathView),
}

/// Work that a command leaves to whoever drives the browser.
#[derive(Debug, PartialEq, Eq)]
pub enum Effect {
    /// Warm the cache with the listing of this directory, in the
    /// background.
    Preload(FsPath),
    /// Open this file with the program the system has for it.
    OpenFile(FsPath),
    /// This directory has more entries than one page shows: read it in
    /// the background, request its full listing, and put it on display.
    LoadRemainder(FsPath),
}

impl View for Effect {
    type V = EffectView;

    open spec fn view(&self) -> EffectView {
        match self {
            Effect::Preload(p) => EffectView::Preload(p@),
            Effect::OpenFile(p) => EffectView::OpenFile(p@),
            Effect::LoadRemainder(p) => EffectView::LoadRemainder(p@),
        }
    }
}

/// The views of a list of effects.
pub open spec fn effects_of(effects: Seq<Effect>) -> Seq<EffectView> {
    effects.map_values(|e: Effect| e@)
}

/// What was read for a command.
pub ghost struct ReadingView {
    pub now: u64,
    pub is_directory: bool,
    pub entries: Seq<RawView>,
    pub parent_entries: Seq<RawView>,
    pub roots: Seq<RawView>,
    pub home: Option<PathView>,
}

/// What whoever drives the browser has read for a command.
///
/// The subject of a command is the directory that it is about to show
/// or open; `FileExplorerDelegate::plan` names it, and says which of the
/// entries below will be looked at. `is_directory`
/// says whether the subject exists and is a directory, `entries` are its
/// raw entries and `parent_entries` those of its parent; what could not
/// be read is empty. `roots` are the roots of the machine, each with the
/// entries of its first level. `home` is the home directory, and `now`
/// the time of the reading in seconds.
#[derive(Debug)]
pub struct DiskReading {
    pub now: u64,
    pub is_directory: bool,
    pub entries: Vec<RawEntry>,
    pub parent_entries: Vec<RawEntry>,
    pub roots: Vec<RawEntry>,
    pub home: Option<FsPath>,
}

impl View for DiskReading {
    type V = ReadingView;

    open spec fn view(&self) -> ReadingView {
        ReadingView {
            now: self.now,
            is_directory: self.is_directory,
            entries: raws_of(self.entries@),
            parent_entries: raws_of(self.parent_entries@),
            roots: raws_of(self.roots@),
            home: path_view_of(self.home),
        }
    }
}

/// How a command ended: whether the browser knew it, and the work it
/// leaves to do.
#[derive(Debug)]
pub struct Outcome {
    pub handled: bool,
    pub effects: Vec<Effect>,
}

/// Everything a command leaves behind.
pub ghost struct Turn {
    pub app: AppView,
    pub cache: Seq<SlotView>,
    pub effects: Seq<EffectView>,
    pub handled: bool,
}

/// The directory that a command is about to show or open, if any.
pub open spec fn subject_of(cmd: CommandView, app: AppView, home: Option<PathView>) -> Option<
    PathView,
> {
    match cmd {
        CommandView::NavigateTo(p) => Some(p),
        CommandView::SelectDirectory(p) => Some(p),
        CommandView::LoadSubdirectories(p) => Some(p),
        CommandView::NavigateUp => match app.selected_path {
            Some(current) => parent_of(current),
            None => None,
        },
        CommandView::NavigateBack => if can_go_back(app.history) {
            current_of(went_back(app.history))
        } else {
            None
        },
        CommandView::NavigateForward => if can_go_forward(app.history) {
            current_of(went_forward(app.history))
        } else {
            None
        },
        CommandView::RefreshDirectory => app.selected_path,
        CommandView::NavigateHome => home,
        _ => None,
    }
}

/// The state after the directory `path` was put on display with the page
/// `files`: `path` is the shown directory and is selected in the tree.
pub open spec fn showing(app: AppView, path: PathView, files: Seq<DetailView>) -> AppView {
    AppView {
        root: selected(app.root, path),
        selected_path: Some(path),
        current_dir_files: files,
        history: app.history,
    }
}

/// The effects that ask for the preloading of `targets`.
pub open spec fn preload_effects(targets: Seq<PathView>) -> Seq<EffectView> {
    targets.map_values(|p: PathView| EffectView::Preload(p))
}

/// What a command leaves behind, given the state and the cache it found
/// and what was read for it.
///
/// A command that shows a directory asks the cache for the first page of
/// it, with the entries read as the source of a fetch. Navigating to a
/// directory asks in addition for the preloading of its parent and its
/// siblings. Selecting a directory records the visit, and asks for the
/// rest of a directory that has more visible entries than a page holds;
/// selecting what is no directory shows its (empty) page and selects it
/// in the tree, no more. Going up, back, forward or home shows the
/// directory meant if there is one and changes nothing else. Refreshing
/// takes the shown directory out of the cache first. A command that is
/// not known is not handled and changes nothing.
pub open spec fn after_command(
    cmd: CommandView,
    app: AppView,
    cache: Seq<SlotView>,
    reading: ReadingView,
) -> Turn {
    let idle = Turn { app, cache, effects: Seq::empty(), handled: true };
    let page = |p: PathView| requested_page(cache, p, 0, PAGE_SIZE as int, reading.entries, reading.now);
    let kept = |p: PathView|
        cache_after_request(cache, p, 0, PAGE_SIZE as int, reading.entries, reading.now);
    match cmd {
        CommandView::NavigateTo(p) => Turn {
            app: showing(app, p, page(p)),
            cache: kept(p),
            effects: preload_effects(preload_targets(p, reading.parent_entries)),
            handled: true,
        },
        CommandView::OpenFile(p) => Turn { effects: seq![EffectView::OpenFile(p)], ..idle },
        CommandView::SelectDirectory(p) => if reading.is_directory {
            Turn {
                app: AppView { history: pushed(app.history, p), ..showing(app, p, page(p)) },
                cache: kept(p),
                effects: if visible(reading.entries).len() > PAGE_SIZE {
                    seq![EffectView::LoadRemainder(p)]
                } else {
                    Seq::empty()
                },
                handled: true,
            }
        } else {
            Turn {
                app: AppView { root: selected(app.root, p), current_dir_files: page(p), ..app },
                cache: kept(p),
                ..idle
            }
        },
        CommandView::LoadSubdirectories(p) => Turn {
            app: AppView {
                root: loaded(
                    app.root,
                    p,
                    tree_of(reading.entries, p, 1),
                    drives_of(reading.roots),
                ),
                ..app
            },
            ..idle
        },
        CommandView::ResetCursor => idle,
        CommandView::UpdateFileList(files) => Turn {
            app: AppView { current_dir_files: files, ..app },
            ..idle
        },
        CommandView::NavigateUp => match subject_of(cmd, app, reading.home) {
            Some(p) => Turn {
                app: AppView { history: pushed(app.history, p), ..showing(app, p, page(p)) },
                cache: kept(p),
                ..idle
            },
            None => idle,
        },
        CommandView::NavigateBack => match subject_of(cmd, app, reading.home) {
            Some(p) => Turn {
                app: AppView { history: went_back(app.history), ..showing(app, p, page(p)) },
                cache: kept(p),
                ..idle
            },
            None => idle,
        },
        CommandView::NavigateForward => match subject_of(cmd, app, reading.home) {
            Some(p) => Turn {
                app: AppView { history: went_forward(app.history), ..showing(app, p, page(p)) },
                cache: kept(p),
                ..idle
            },
            None => idle,
        },
        CommandView::RefreshDirectory => match app.selected_path {
            Some(p) => Turn {
                app: AppView {
                    current_dir_files: requested_page(
                        without(cache, p),
                        p,
                        0,
                        PAGE_SIZE as int,
                        reading.entries,
                        reading.now,
                    ),
                    ..app
                },
                cache: cache_after_request(
                    without(cache, p),
                    p,
                    0,
                    PAGE_SIZE as int,
                    reading.entries,
                    reading.now,
                ),
                ..idle
            },
            None => idle,
        },
        CommandView::NavigateHome => match reading.home {
            Some(p) => Turn {
                app: AppView { history: pushed(app.history, p), ..showing(app, p, page(p)) },
                cache: kept(p),
                ..idle
            },
            None => idle,
        },
        CommandView::Other => Turn { handled: false, ..idle },
    }
}

/// What is to be read for a command.
pub ghost struct PlanView {
    pub subject: Option<PathView>,
    pub entries: bool,
    pub parent_entries: bool,
    pub roots: bool,
}

/// What is to be read before a command is handled: the directory that
/// the command is about, and whether its entries, the entries of its
/// parent and the roots of the machine will be looked at.
#[derive(Debug)]
pub struct ReadPlan {
    pub subject: Option<FsPath>,
    pub entries: bool,
    pub parent_entries: bool,
    pub roots: bool,
}

impl View for ReadPlan {
    type V = PlanView;

    open spec fn view(&self) -> PlanView {
        PlanView {
            subject: path_view_of(self.subject),
            entries: self.entries,
            parent_entries: self.parent_entries,
            roots: self.roots,
        }
    }
}

/// Whether what was read for the plan `have` is all that `plan` asks
/// for: the subject is the same, and nothing is asked for that was not
/// read.
pub open spec fn plan_covers(have: PlanView, plan: PlanView) -> bool {
    &&& have.subject == plan.subject
    &&& plan.entries ==> have.entries
    &&& plan.parent_entries ==> have.parent_entries
    &&& plan.roots ==> have.roots
}

impl ReadPlan {
    /// The plan that asks for nothing.
    pub fn nothing() -> (r: Self)
        ensures
            r@ == (PlanView { subject: None, entries: false, parent_entries: false, roots: false }),
    {
        ReadPlan { subject: None, entries: false, parent_entries: false, roots: false }
    }

    /// Whether what was read for this plan is all that `plan` asks for.
    pub fn covers(&self, plan: &ReadPlan) -> (r: bool)
        ensures
            r == plan_covers(self@, plan@),
    {
        let same_subject = match (&self.subject, &plan.subject) {
            (Some(a), Some(b)) => a.same_as(b),
            (None, None) => true,
            _ => false,
        };
        same_subject && (self.entries || !plan.entries) && (self.parent_entries
            || !plan.parent_entries) && (self.roots || !plan.roots)
    }
}

/// What is to be read for `cmd`.
///
/// A command without a subject needs nothing read. Opening a tree node
/// needs the entries of the node if it was never loaded, and the roots
/// if the tree's group of roots is empty. Selecting a directory and
/// refreshing always need the entries. Every other command that shows a
/// directory needs them where the cache cannot serve the first page.
/// Navigating to a directory needs the entries of its parent as well, if
/// it has one.
pub open spec fn plan_of(cmd: CommandView, app: AppView, cache: Seq<SlotView>, home: Option<PathView>) -> PlanView {
    match subject_of(cmd, app, home) {
        None => PlanView { subject: None, entries: false, parent_entries: false, roots: false },
        Some(p) => PlanView {
            subject: Some(p),
            entries: match cmd {
                CommandView::LoadSubdirectories(_) => wants_listing(app.root, p),
                CommandView::SelectDirectory(_) => true,
                CommandView::RefreshDirectory => true,
                _ => served(cache, p, 0, PAGE_SIZE as int) is None,
            },
            parent_entries: cmd is NavigateTo && parent_of(p) is Some,
            roots: cmd is LoadSubdirectories && wants_roots(app.root, p),
        },
    }
}

/// Whether two readings agree in all that `plan` asks for.
pub open spec fn readings_agree(plan: PlanView, a: ReadingView, b: ReadingView) -> bool {
    &&& a.now == b.now
    &&& a.is_directory == b.is_directory
    &&& a.home == b.home
    &&& plan.entries ==> a.entries == b.entries
    &&& plan.parent_entries ==> a.parent_entries == b.parent_entries
    &&& plan.roots ==> a.roots == b.roots
}

/// What the plan does not ask for is not looked at: two readings that
/// agree in all that the plan asks for leave the same behind.
pub proof fn lemma_plan_suffices(
    cmd: CommandView,
    app: AppView,
    cache: Seq<SlotView>,
    a: ReadingView,
    b: ReadingView,
)
    requires
        readings_agree(plan_of(cmd, app, cache, a.home), a, b),
    ensures
        after_command(cmd, app, cache, a) == after_command(cmd, app, cache, b),
{
    match cmd {
        CommandView::LoadSubdirectories(p) => {
            let fresh_a = tree_of(a.entries, p, 1);
            let fresh_b = tree_of(b.entries, p, 1);
            let drives_a = drives_of(a.roots);
            let drives_b = drives_of(b.roots);
            if !wants_listing(app.root, p) {
                lemma_loaded_without_listing(app.root, p, fresh_a, fresh_b, drives_a);
            }
            if !wants_roots(app.root, p) {
                lemma_loaded_without_roots(app.root, p, fresh_b, drives_a, drives_b);
            }
        },
        _ => {},
    }
}

/// Turns paths into requests to preload them.
fn preloads(targets: Vec<FsPath>) -> (r: Vec<Effect>)
    ensures
        effects_of(r@) == preload_effects(paths_of(targets@)),
{
    let ghost all = paths_of(targets@);
    let mut rest = targets;
    let mut out: Vec<Effect> = Vec::new();
    while rest.len() > 0
        invariant
            rest.len() <= all.len(),
            paths_of(rest@) == all.take(rest.len() as int),
            out.len() == all.len() - rest.len(),
            forall|i: int|
                0 <= i < out.len() ==> (#[trigger] out[i])@ == EffectView::Preload(
                    all[rest.len() + i],
                ),
        decreases rest.len(),
    {
        let ghost k = rest.len() as int;
        let ghost before = out@;
        let p = rest.pop().unwrap();
        proof {
            assert(paths_of(rest@) =~= all.take(k - 1));
            assert(p@ == all.take(k)[k - 1]);
        }
        out.insert(0, Effect::Preload(p));
        proof {
            assert forall|i: int| 0 <= i < out.len() implies (#[trigger] out[i])@
                == EffectView::Preload(all[k - 1 + i]) by {
                if i > 0 {
                    assert(out[i] == before[i - 1]);
                }
            }
        }
    }
    proof {
        assert(effects_of(out@) =~= preload_effects(all));
    }
    out
}

/// The handler of the browser's commands.
#[derive(Debug)]
pub struct FileExplorerDelegate;

impl FileExplorerDelegate {
    /// The directory that `cmd` is about to show or open: what has to be
    /// read before `command` is called.
    pub fn subject(&self, cmd: &Command, data: &AppState, home: &Option<FsPath>) -> (r: Option<
        FsPath,
    >)
        requires
            history_valid(data@.history),
        ensures
            path_view_of(r) == subject_of(cmd@, data@, path_view_of(*home)),
    {
        match cmd {
            Command::NavigateTo(p) => Some(p.clone()),
            Command::SelectDirectory(p) => Some(p.clone()),
            Command::LoadSubdirectories(p) => Some(p.clone()),
            Command::NavigateUp => match &data.selected_path {
                Some(current) => current.parent(),
                None => None,
            },
            Command::NavigateBack => {
                if data.history.can_go_back() {
                    match data.history.entry(data.history.position() - 1) {
                        Some(p) => Some(p.clone()),
                        None => None,
                    }
                } else {
                    None
                }
            },
            Command::NavigateForward => {
                let count: usize = data.history.len();
                if data.history.can_go_forward() && data.history.position() < count {
                    match data.history.entry(data.history.position() + 1) {
                        Some(p) => Some(p.clone()),
                        None => None,
                    }
                } else {
                    None
                }
            },
            Command::RefreshDirectory => match &data.selected_path {
                Some(current) => Some(current.clone()),
                None => None,
            },
            Command::NavigateHome => match home {
                Some(h) => Some(h.clone()),
                None => None,
            },
            _ => None,
        }
    }

    /// Says what has to be read before `cmd` is handled.
    pub fn plan(
        &self,
        cmd: &Command,
        data: &AppState,
        cache: &DirectoryCache,
        home: &Option<FsPath>,
    ) -> (r: ReadPlan)
        requires
            history_valid(data@.history),
        ensures
            r@ == plan_of(cmd@, data@, cache@, path_view_of(*home)),
    {
        let subject = match self.subject(cmd, data, home) {
            Some(p) => p,
            None => {
                return ReadPlan {
                    subject: None,
                    entries: false,
                    parent_entries: false,
                    roots: false,
                };
            },
        };
        let mut parent_entries = false;
        let mut roots = false;
        let entries = match cmd {
            Command::LoadSubdirectories(_) => {
                roots = expansion_needs_roots(&data.root, &subject);
                expansion_needs_listing(&data.root, &subject)
            },
            Command::SelectDirectory(_) => true,
            Command::RefreshDirectory => true,
            Command::NavigateTo(_) => {
                parent_entries = subject.segments.len() > 0;
                needs_fetch(cache, &subject, 0, PAGE_SIZE)
            },
            _ => needs_fetch(cache, &subject, 0, PAGE_SIZE),
        };
        ReadPlan { subject: Some(subject), entries, parent_entries, roots }
    }

    /// Handles one command: moves the state and the cache on, and names
    /// the work that is left to do.
    pub fn command(
        &mut self,
        cmd: Command,
        data: &mut AppState,
        cache: &mut DirectoryCache,
        reading: DiskReading,
    ) -> (r: Outcome)
        requires
            history_valid(old(data)@.history),
            cache_valid(old(cache)@),
        ensures
            history_valid(final(data)@.history),
            cache_valid(final(cache)@),
            (Turn {
                app: final(data)@,
                cache: final(cache)@,
                effects: effects_of(r.effects@),
                handled: r.handled,
            }) == after_command(cmd@, old(data)@, old(cache)@, reading@),
    {
        let DiskReading { now, is_directory, entries, parent_entries, roots, home } = reading;
        let mut effects: Vec<Effect> = Vec::new();
        let mut handled = true;
        proof {
            assert(effects_of(effects@) =~= Seq::<EffectView>::empty());
        }
        match cmd {
            Command::NavigateTo(path) => {
                let files = get_directory_contents(cache, &path, entries, now);
                effects = preloads(preload_parent_and_siblings(&path, &parent_entries));
                update_selection(&mut data.root, &path);
                data.current_dir_files = files;
                data.selected_path = Some(path);
            },
            Command::OpenFile(path) => {
                effects.push(Effect::OpenFile(path));
                proof {
                    assert(effects_of(effects@) =~= seq![EffectView::OpenFile(path@)]);
                }
            },
            Command::SelectDirectory(path) => {
                let total = get_directory_item_count(&entries);
                let files = get_directory_contents(cache, &path, entries, now);
                update_selection(&mut data.root, &path);
                data.current_dir_files = files;
                if is_directory {
                    if total > PAGE_SIZE {
                        effects.push(Effect::LoadRemainder(path.clone()));
                        proof {
                            assert(effects_of(effects@) =~= seq![EffectView::LoadRemainder(path@)]);
                        }
                    }
                    data.history.push(path.clone());
                    data.selected_path = Some(path);
                }
            },
            Command::LoadSubdirectories(path) => {
                load_subdirectories(&mut data.root, &path, entries, roots);
            },
            Command::ResetCursor => {},
            Command::UpdateFileList(files) => {
                data.current_dir_files = files;
            },
            Command::NavigateUp => {
                let parent = match &data.selected_path {
                    Some(current) => current.parent(),
                    None => None,
                };
                match parent {
                    Some(path) => {
                        let files = get_directory_contents(cache, &path, entries, now);
                        update_selection(&mut data.root, &path);
                        data.current_dir_files = files;
                        data.history.push(path.clone());
                        data.selected_path = Some(path);
                    },
                    None => {},
                }
            },
            Command::NavigateBack => {
                match data.history.back() {
                    Some(path) => {
                        let files = get_directory_contents(cache, &path, entries, now);
                        update_selection(&mut data.root, &path);
                        data.current_dir_files = files;
                        data.selected_path = Some(path);
                    },
                    None => {},
                }
            },
            Command::NavigateForward => {
                match data.history.forward() {
                    Some(path) => {
                        let files = get_directory_contents(cache, &path, entries, now);
                        update_selection(&mut data.root, &path);
                        data.current_dir_files = files;
                        data.selected_path = Some(path);
                    },
                    None => {},
                }
            },
            Command::RefreshDirectory => {
                let current = match &data.selected_path {
                    Some(current) => Some(current.clone()),
                    None => None,
                };
                match current {
                    Some(path) => {
                        invalidate_cache(cache, &path);
                        data.current_dir_files = get_directory_contents(cache, &path, entries, now);
                    },
                    None => {},
                }
            },
            Command::NavigateHome => {
                match home {
                    Some(path) => {
                        let files = get_directory_contents(cache, &path, entries, now);
                        update_selection(&mut data.root, &path);
                        data.current_dir_files = files;
                        data.history.push(path.clone());
                        data.selected_path = Some(path);
                    },
                    None => {},
                }
            },
            Command::Other => {
                handled = false;
            },
        }
        Outcome { handled, effects }
    }
}

} // verus!
