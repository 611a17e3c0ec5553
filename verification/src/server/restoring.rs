//! The course of putting a restored database in the place of the one in use: what is done next, and
//! how it is undone when it fails.
use crate::path;
use crate::text;
use vstd::prelude::*;

verus! {

/// The names of a restore: the database in use, the verified copy that replaces it, the name that the
/// database in use is kept under, and the name for a copy that has to be set aside.
#[derive(Debug, PartialEq, Eq)]
pub struct RestoreNames {
    pub database: String,
    pub temporary: String,
    pub archived: String,
    pub failed: String,
}

/// The texts of the names.
pub struct RestoreNamesView {
    pub database: Seq<char>,
    pub temporary: Seq<char>,
    pub archived: Seq<char>,
    pub failed: Seq<char>,
}

/// The names of a restore, with a fresh identifier for each new one.
pub open spec fn names_for(
    database: Seq<char>,
    copy: Seq<char>,
    archive: Seq<char>,
    failure: Seq<char>,
) -> RestoreNamesView {
    RestoreNamesView {
        database,
        temporary: path::join_path(path::parent_of(database)->0, ".lmt-restore-"@ + copy + ".tmp"@),
        archived: path::with_suffix(database, "pre-restore-"@ + archive),
        failed: path::with_suffix(database, "failed-restore-"@ + failure),
    }
}

impl RestoreNames {
    /// The texts of the names.
    pub open spec fn view(&self) -> RestoreNamesView {
        RestoreNamesView {
            database: self.database@,
            temporary: self.temporary@,
            archived: self.archived@,
            failed: self.failed@,
        }
    }

    /// Names the files of a restore; a database needs a directory.
    pub fn new(database: &str, copy: &str, archive: &str, failure: &str) -> (r: Result<RestoreNames, String>)
        ensures
            match r {
                Ok(names) => path::parent_of(database@) is Some && names@ == names_for(
                    database@,
                    copy@,
                    archive@,
                    failure@,
                ),
                Err(error) => path::parent_of(database@) is None && error@ == "database path has no parent"@,
            },
    {
        let parent: String = match path::parent(database) {
            Some(parent) => parent,
            None => {
                return Err("database path has no parent".to_owned());
            },
        };
        let copy_name: String = text::join3(".lmt-restore-", copy, ".tmp");
        let kept: String = text::join2("pre-restore-", archive);
        let aside: String = text::join2("failed-restore-", failure);
        Ok(
            RestoreNames {
                database: database.to_owned(),
                temporary: path::join(parent.as_str(), copy_name.as_str()),
                archived: path::replace_suffix(database, kept.as_str()),
                failed: path::replace_suffix(database, aside.as_str()),
            },
        )
    }
}

/// The files that stand beside a database and belong to it.
pub fn sqlite_sidecars(database: &str) -> (r: (String, String))
    ensures
        r.0@ == database@ + "-wal"@,
        r.1@ == database@ + "-shm"@,
{
    (text::join2(database, "-wal"), text::join2(database, "-shm"))
}

/// Accepts a restore that the operator has acknowledged.
pub fn acknowledged(acknowledge: bool) -> (r: Result<(), String>)
    ensures
        match r {
            Ok(()) => acknowledge,
            Err(error) => !acknowledge && error@
                == "restore requires --acknowledge-control-plane-restore and stopped Agents"@,
        },
{
    if acknowledge {
        Ok(())
    } else {
        Err("restore requires --acknowledge-control-plane-restore and stopped Agents".to_owned())
    }
}

/// What a restore waits for; behind a failure, with its error.
#[derive(Debug, PartialEq, Eq)]
pub enum Stage<T> {
    /// The database in use takes the name it is kept under.
    Archiving,
    SyncingArchive,
    /// What stood beside the database is removed.
    Clearing,
    /// The copy takes the database's name.
    Installing,
    SyncingInstall,
    /// Whether something has the database's name is looked up.
    Looking(T),
    /// What has the database's name is set aside.
    SettingAside(T),
    /// The database that was in use takes its name again.
    PuttingBack(T),
    SyncingRollback(T),
    /// The copy is removed.
    Discarding(T),
    Done,
    Failed(T),
}

/// A restore.
#[derive(Debug, PartialEq, Eq)]
pub struct Restoration {
    pub names: RestoreNames,
    /// True when a database was in use.
    pub had_database: bool,
    pub stage: Stage<String>,
}

/// What a restore holds.
pub struct RestorationView {
    pub names: RestoreNamesView,
    pub had_database: bool,
    pub stage: Stage<Seq<char>>,
}

/// What is to be done for a restore.
#[derive(Debug, PartialEq, Eq)]
pub enum Action {
    Rename { from: String, to: String },
    /// Remove files that may be missing.
    Remove(Vec<String>),
    /// Make the directory of the database durable.
    Sync,
    /// Tell whether there is a file.
    Look(String),
    /// Nothing: the restore has come to its end, or to the error told.
    Finish(Option<String>),
}

/// What is to be done, with its texts.
pub enum ActionView {
    Rename { from: Seq<char>, to: Seq<char> },
    Remove(Seq<Seq<char>>),
    Sync,
    Look(Seq<char>),
    Finish(Option<Seq<char>>),
}

impl Action {
    /// What is to be done.
    pub open spec fn view(&self) -> ActionView {
        match *self {
            Action::Rename { from, to } => ActionView::Rename { from: from@, to: to@ },
            Action::Remove(names) => ActionView::Remove(text::views(names@)),
            Action::Sync => ActionView::Sync,
            Action::Look(name) => ActionView::Look(name@),
            Action::Finish(error) => ActionView::Finish(text::opt_view(error)),
        }
    }
}

/// What came of an action.
#[derive(Debug, PartialEq, Eq)]
pub enum Event<T> {
    Done,
    Failed(T),
    Found(bool),
}

/// What came of an action, with its text.
pub open spec fn event_view(event: Event<String>) -> Event<Seq<char>> {
    match event {
        Event::Done => Event::Done,
        Event::Failed(error) => Event::Failed(error@),
        Event::Found(there) => Event::Found(there),
    }
}

/// The stage with the text of its error.
pub open spec fn stage_view(stage: Stage<String>) -> Stage<Seq<char>> {
    match stage {
        Stage::Archiving => Stage::Archiving,
        Stage::SyncingArchive => Stage::SyncingArchive,
        Stage::Clearing => Stage::Clearing,
        Stage::Installing => Stage::Installing,
        Stage::SyncingInstall => Stage::SyncingInstall,
        Stage::Looking(error) => Stage::Looking(error@),
        Stage::SettingAside(error) => Stage::SettingAside(error@),
        Stage::PuttingBack(error) => Stage::PuttingBack(error@),
        Stage::SyncingRollback(error) => Stage::SyncingRollback(error@),
        Stage::Discarding(error) => Stage::Discarding(error@),
        Stage::Done => Stage::Done,
        Stage::Failed(error) => Stage::Failed(error@),
    }
}

impl RestorationView {
    /// What the restore asks for.
    pub open spec fn asks(self) -> ActionView {
        let names = self.names;
        match self.stage {
            Stage::Archiving => ActionView::Rename { from: names.database, to: names.archived },
            Stage::Clearing => ActionView::Remove(seq![names.database + "-wal"@, names.database + "-shm"@]),
            Stage::Installing => ActionView::Rename { from: names.temporary, to: names.database },
            Stage::Looking(_) => ActionView::Look(names.database),
            Stage::SettingAside(_) => ActionView::Rename { from: names.database, to: names.failed },
            Stage::PuttingBack(_) => ActionView::Rename { from: names.archived, to: names.database },
            Stage::Discarding(_) => ActionView::Remove(seq![names.temporary]),
            Stage::SyncingArchive | Stage::SyncingInstall | Stage::SyncingRollback(_) => ActionView::Sync,
            Stage::Done => ActionView::Finish(None),
            Stage::Failed(error) => ActionView::Finish(Some(error)),
        }
    }

    /// The stage in which the database that was in use takes its name again, where one was.
    pub open spec fn undoing(self, error: Seq<char>) -> Stage<Seq<char>> {
        if self.had_database {
            Stage::PuttingBack(error)
        } else {
            Stage::SyncingRollback(error)
        }
    }

    /// The stage that an event leads to.
    pub open spec fn next_stage(self, event: Event<Seq<char>>) -> Stage<Seq<char>> {
        match (self.stage, event) {
            (Stage::Archiving, Event::Failed(error)) => Stage::Failed(error),
            (Stage::Archiving, _) => Stage::SyncingArchive,
            (Stage::SyncingArchive, Event::Failed(error)) => Stage::Failed(error),
            (Stage::SyncingArchive, _) => Stage::Clearing,
            (Stage::Clearing, Event::Failed(error)) => Stage::Looking(error),
            (Stage::Clearing, _) => Stage::Installing,
            (Stage::Installing, Event::Failed(error)) => Stage::Looking(error),
            (Stage::Installing, _) => Stage::SyncingInstall,
            (Stage::SyncingInstall, Event::Failed(error)) => Stage::Looking(error),
            (Stage::SyncingInstall, _) => Stage::Done,
            (Stage::Looking(error), Event::Found(there)) => if there {
                Stage::SettingAside(error)
            } else {
                self.undoing(error)
            },
            (Stage::SettingAside(_), Event::Failed(error)) => Stage::Failed(error),
            (Stage::SettingAside(error), _) => self.undoing(error),
            (Stage::PuttingBack(_), Event::Failed(error)) => Stage::Failed(error),
            (Stage::PuttingBack(error), _) => Stage::SyncingRollback(error),
            (Stage::SyncingRollback(_), Event::Failed(error)) => Stage::Failed(error),
            (Stage::SyncingRollback(error), _) => Stage::Discarding(error),
            (Stage::Discarding(error), _) => Stage::Failed(error),
            (stage, _) => stage,
        }
    }

    /// Where an event leads.
    pub open spec fn next(self, event: Event<Seq<char>>) -> RestorationView {
        RestorationView { stage: self.next_stage(event), ..self }
    }
}

/// Where a restore begins.
pub open spec fn begun(names: RestoreNamesView, had_database: bool) -> RestorationView {
    RestorationView {
        names,
        had_database,
        stage: if had_database {
            Stage::Archiving
        } else {
            Stage::Clearing
        },
    }
}

impl Restoration {
    /// What the restore holds.
    pub open spec fn view(&self) -> RestorationView {
        RestorationView { names: self.names@, had_database: self.had_database, stage: stage_view(self.stage) }
    }

    /// Begins to put a copy in the place of a database, if there is one.
    pub fn begin(names: RestoreNames, had_database: bool) -> (r: Restoration)
        ensures
            r@ == begun(names@, had_database),
    {
        let stage: Stage<String> = if had_database {
            Stage::Archiving
        } else {
            Stage::Clearing
        };
        Restoration { names, had_database, stage }
    }

    /// What the restore asks for.
    pub fn action(&self) -> (r: Action)
        ensures
            r@ == self@.asks(),
    {
        let names: &RestoreNames = &self.names;
        match &self.stage {
            Stage::Archiving => Action::Rename { from: names.database.clone(), to: names.archived.clone() },
            Stage::Clearing => {
                let (wal, shm) = sqlite_sidecars(names.database.as_str());
                let files: Vec<String> = vec![wal, shm];
                assert(text::views(files@) =~= self@.asks()->Remove_0);
                Action::Remove(files)
            },
            Stage::Installing => Action::Rename { from: names.temporary.clone(), to: names.database.clone() },
            Stage::Looking(_) => Action::Look(names.database.clone()),
            Stage::SettingAside(_) => Action::Rename { from: names.database.clone(), to: names.failed.clone() },
            Stage::PuttingBack(_) => Action::Rename { from: names.archived.clone(), to: names.database.clone() },
            Stage::Discarding(_) => {
                let files: Vec<String> = vec![names.temporary.clone()];
                assert(text::views(files@) =~= self@.asks()->Remove_0);
                Action::Remove(files)
            },
            Stage::SyncingArchive | Stage::SyncingInstall | Stage::SyncingRollback(_) => Action::Sync,
            Stage::Done => Action::Finish(None),
            Stage::Failed(error) => Action::Finish(Some(error.clone())),
        }
    }

    /// Goes where an event leads.
    pub fn step(self, event: Event<String>) -> (r: Restoration)
        ensures
            r@ == self@.next(event_view(event)),
    {
        let Restoration { names, had_database, stage } = self;
        let next: Stage<String> = match (stage, event) {
            (Stage::Archiving, Event::Failed(error)) => Stage::Failed(error),
            (Stage::Archiving, _) => Stage::SyncingArchive,
            (Stage::SyncingArchive, Event::Failed(error)) => Stage::Failed(error),
            (Stage::SyncingArchive, _) => Stage::Clearing,
            (Stage::Clearing, Event::Failed(error)) => Stage::Looking(error),
            (Stage::Clearing, _) => Stage::Installing,
            (Stage::Installing, Event::Failed(error)) => Stage::Looking(error),
            (Stage::Installing, _) => Stage::SyncingInstall,
            (Stage::SyncingInstall, Event::Failed(error)) => Stage::Looking(error),
            (Stage::SyncingInstall, _) => Stage::Done,
            (Stage::Looking(error), Event::Found(there)) => if there {
                Stage::SettingAside(error)
            } else if had_database {
                Stage::PuttingBack(error)
            } else {
                Stage::SyncingRollback(error)
            },
            (Stage::SettingAside(_), Event::Failed(error)) => Stage::Failed(error),
            (Stage::SettingAside(error), _) => if had_database {
                Stage::PuttingBack(error)
            } else {
                Stage::SyncingRollback(error)
            },
            (Stage::PuttingBack(_), Event::Failed(error)) => Stage::Failed(error),
            (Stage::PuttingBack(error), _) => Stage::SyncingRollback(error),
            (Stage::SyncingRollback(_), Event::Failed(error)) => Stage::Failed(error),
            (Stage::SyncingRollback(error), _) => Stage::Discarding(error),
            (Stage::Discarding(error), _) => Stage::Failed(error),
            (stage, _) => stage,
        };
        Restoration { names, had_database, stage: next }
    }
}

/// The files of a directory, each with what it holds.
pub type Files = Map<Seq<char>, Seq<u8>>;

/// What a file holds, where there is one.
pub open spec fn contents(files: Files, name: Seq<char>) -> Option<Seq<u8>> {
    if files.dom().contains(name) {
        Some(files[name])
    } else {
        None
    }
}

/// True when an action can end with the event told: a rename takes place or fails and moves nothing, a
/// removal removes no file but those it names, a look-up answers truly, and all else changes nothing.
pub open spec fn comes_of(files: Files, action: ActionView, after: Files, event: Event<Seq<char>>) -> bool {
    match action {
        ActionView::Rename { from, to } => {
            ||| event is Failed && after == files
            ||| {
                &&& event is Done
                &&& files.dom().contains(from)
                &&& after == files.remove(from).insert(to, files[from])
            }
        },
        ActionView::Remove(names) => {
            &&& !(event is Found)
            &&& forall|name: Seq<char>| !names.contains(name) ==> #[trigger] contents(after, name) == contents(files, name)
        },
        ActionView::Look(name) => after == files && event == Event::<Seq<char>>::Found(files.dom().contains(name)),
        _ => after == files && !(event is Found),
    }
}

/// True when the names of a restore differ from each other and from those of the files beside the
/// database.
pub open spec fn apart(names: RestoreNamesView) -> bool {
    let beside = seq![names.database + "-wal"@, names.database + "-shm"@];
    &&& names.database != names.temporary
    &&& names.database != names.archived
    &&& names.database != names.failed
    &&& names.temporary != names.archived
    &&& names.temporary != names.failed
    &&& names.archived != names.failed
    &&& !beside.contains(names.database)
    &&& !beside.contains(names.temporary)
    &&& !beside.contains(names.archived)
    &&& !beside.contains(names.failed)
}

/// True when the database that was in use stands under its name.
pub open spec fn in_place(names: RestoreNamesView, files: Files, old: Option<Seq<u8>>) -> bool {
    contents(files, names.database) == old
}

/// True when the database that was in use, if one was, stands under the name it is kept under.
pub open spec fn kept(names: RestoreNamesView, files: Files, old: Option<Seq<u8>>) -> bool {
    old is Some ==> contents(files, names.archived) == old
}

/// True when the files stand as the stage of a restore says, for what the database held and what the
/// copy holds.
pub open spec fn in_order(job: RestorationView, files: Files, old: Option<Seq<u8>>, new: Seq<u8>) -> bool {
    let names = job.names;
    &&& apart(names)
    &&& job.had_database == old is Some
    &&& match job.stage {
        Stage::Archiving => in_place(names, files, old) && old is Some && contents(files, names.temporary) == Some(new),
        Stage::SyncingArchive | Stage::Clearing | Stage::Installing => kept(names, files, old) && contents(
            files,
            names.database,
        ) is None && contents(files, names.temporary) == Some(new),
        Stage::SyncingInstall | Stage::Done => kept(names, files, old) && contents(files, names.database) == Some(new),
        Stage::Looking(_) => kept(names, files, old),
        Stage::SettingAside(_) => kept(names, files, old),
        Stage::PuttingBack(_) => kept(names, files, old) && contents(files, names.database) is None,
        Stage::SyncingRollback(_) | Stage::Discarding(_) => in_place(names, files, old),
        Stage::Failed(_) => in_place(names, files, old) || (old is Some && kept(names, files, old)),
    }
}

/// A restore begins in order where the copy is ready.
pub proof fn law_restores_begin_in_order(names: RestoreNamesView, files: Files, new: Seq<u8>)
    requires
        apart(names),
        contents(files, names.temporary) == Some(new),
    ensures
        in_order(
            begun(names, contents(files, names.database) is Some),
            files,
            contents(files, names.database),
            new,
        ),
{
}

/// Whatever an action comes to, a restore of a database stays in order: the database that was in use is
/// never lost, but stands under its name or under the name it is kept under.
pub proof fn law_restores_stay_in_order(
    job: RestorationView,
    files: Files,
    after: Files,
    event: Event<Seq<char>>,
    old: Option<Seq<u8>>,
    new: Seq<u8>,
)
    requires
        in_order(job, files, old, new),
        old is Some,
        comes_of(files, job.asks(), after, event),
    ensures
        in_order(job.next(event), after, old, new),
{
    let names = job.names;
    assert(!seq![names.temporary].contains(names.database));
    assert(!seq![names.temporary].contains(names.archived));
}

/// A restore that came to its end has the copy in the database's place and the database that was in use
/// under the name it is kept under.
pub proof fn law_finished_restores_keep_the_old_database(
    job: RestorationView,
    files: Files,
    old: Option<Seq<u8>>,
    new: Seq<u8>,
)
    requires
        in_order(job, files, old, new),
        job.stage is Done,
    ensures
        contents(files, job.names.database) == Some(new),
        old is Some ==> contents(files, job.names.archived) == old,
{
}

/// An installation that fails is undone: once the rollback has been made durable, the database that was
/// in use has its name again.
pub proof fn law_failed_installations_are_undone(
    job: RestorationView,
    files: Files,
    old: Option<Seq<u8>>,
    new: Seq<u8>,
)
    requires
        in_order(job, files, old, new),
        job.stage is Discarding,
    ensures
        contents(files, job.names.database) == old,
{
}

/// What went wrong is what is told: a restore that fails while it installs ends with that very failure
/// once it was undone, and no failure ends as a success.
pub proof fn law_failures_are_told(job: RestorationView, error: Seq<char>, event: Event<Seq<char>>)
    ensures
        job.stage != Stage::<Seq<char>>::Done && !(job.stage is Failed) && !(job.stage is Looking) && !(job.stage is Discarding)
            ==> {
            let next = job.next(Event::Failed(error));
            ||| next.stage == Stage::Failed(error)
            ||| next.stage == Stage::Looking(error)
        },
        job.stage == Stage::Looking(error) && event is Found ==> job.next(event).stage == (if event->Found_0 {
            Stage::SettingAside(error)
        } else if job.had_database {
            Stage::PuttingBack(error)
        } else {
            Stage::SyncingRollback(error)
        }),
        job.stage == Stage::SettingAside(error) && !(event is Failed) ==> job.next(event).stage == (if job.had_database {
            Stage::PuttingBack(error)
        } else {
            Stage::SyncingRollback(error)
        }),
        job.stage == Stage::PuttingBack(error) && !(event is Failed) ==> job.next(event).stage == Stage::SyncingRollback(error),
        job.stage == Stage::SyncingRollback(error) && !(event is Failed) ==> job.next(event).stage == Stage::Discarding(error),
        job.stage == Stage::Discarding(error) ==> job.next(event).asks() == ActionView::Finish(Some(error)),
        job.next(event).names == job.names,
        job.next(event).had_database == job.had_database,
        job.next(event).stage == Stage::<Seq<char>>::Done ==> job.stage == Stage::<Seq<char>>::Done || (job.stage
            == Stage::<Seq<char>>::SyncingInstall && !(event is Failed)),
{
}

/// What belongs to the old database goes before the new one comes: the files beside it are removed
/// between putting it away and installing.
pub proof fn law_old_companions_go_first(job: RestorationView)
    requires
        job.stage == Stage::<Seq<char>>::Clearing,
    ensures
        job.asks() is Remove,
        job.asks()->Remove_0.contains(job.names.database + "-wal"@),
        job.asks()->Remove_0.contains(job.names.database + "-shm"@),
        job.asks()->Remove_0.len() == 2,
        job.next(Event::Done).asks() == (ActionView::Rename { from: job.names.temporary, to: job.names.database }),
{
    let names = job.asks()->Remove_0;
    assert(names[0] == job.names.database + "-wal"@);
    assert(names[1] == job.names.database + "-shm"@);
}

} // verus!
