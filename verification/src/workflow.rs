//! The steps of a run, from the URL on the command line to the downloads.
//!
//! A run hands out one action at a time. Whoever carries it out reports what
//! came of it, and gets the next action in return.

use crate::encoding::encode_path;
use crate::error::{ErrorView, IaGetError};
use crate::plan::{
    accept_plan, accepted, downloadable, file_views, is_selection,
    law_downloads_carry_the_listed_files, law_every_file_is_accounted_for,
    law_first_file_without_url_is_reported, plan_downloads, plan_view, planned, DownloadPlan,
    FileView, ListedFile, PlanView,
};
use crate::url_syntax::{joined_url, parsed_url};
use crate::urls::{
    file_list_url, get_xml_url, identifier_of, is_plain_identifier, is_relative_name,
    item_directory, parse_base_url, url_outcome,
};
use vstd::prelude::*;

verus! {

/// What a run waits for.
#[derive(Debug, Clone, Copy, PartialEq, Eq, Structural)]
pub enum Stage {
    /// The check of the URL on the command line.
    Validating,
    /// The login.
    Authenticating,
    /// The check that the item can be reached.
    CheckingItem,
    /// The check that the file list can be reached.
    CheckingMetadata,
    /// The file list.
    FetchingMetadata,
    /// The downloads.
    Downloading,
    /// Nothing more.
    Ended,
}

/// A run on its way.
#[derive(Debug, PartialEq, Eq)]
pub struct Run {
    /// The URL on the command line.
    pub url: String,
    /// The user name and the password to log in with.
    pub credentials: Option<(String, String)>,
    /// What the run waits for.
    pub stage: Stage,
}

/// What came of an action.
#[derive(Debug, PartialEq, Eq)]
pub enum Event {
    /// It succeeded.
    Done,
    /// It succeeded, and this is the file list.
    Listed { files: Vec<ListedFile> },
    /// It failed, and this is the text of the error.
    Failed { message: String },
}

/// What the spinner shows where a run breaks off.
#[derive(Debug, PartialEq, Eq)]
pub enum Note {
    /// Nothing new.
    Silent,
    /// The text of the error.
    InvalidUrl { message: String },
    /// That the login failed.
    AuthenticationFailed { username: String },
    /// That the item cannot be reached.
    ItemNotAccessible { url: String },
    /// That the file list cannot be reached.
    MetadataNotAccessible { url: String },
    /// That there are private files only.
    OnlyPrivateFiles { private_count: usize },
    /// That there are no files.
    NoFiles,
}

/// What to do next.
#[derive(Debug, PartialEq, Eq)]
pub enum Action {
    /// Check the form of the URL.
    ValidateUrl { url: String },
    /// Log in and store the cookies of the session.
    Authenticate { username: String, password: String },
    /// Check that the item can be reached.
    CheckItem { url: String },
    /// Check that the file list can be reached.
    CheckMetadata { url: String },
    /// Get the file list and read it.
    FetchMetadata { url: String },
    /// Download.
    Download { plan: DownloadPlan },
    /// End the run: all went well.
    Finish,
    /// End the run with an error: this one, or that of the failed action.
    Abort { note: Note, error: Option<IaGetError> },
}

/// A [`Run`] as it is seen in contracts.
pub struct RunView {
    pub url: Seq<char>,
    pub credentials: Option<(Seq<char>, Seq<char>)>,
    pub stage: Stage,
}

/// An [`Event`] as it is seen in contracts.
pub enum EventView {
    Done,
    Listed(Seq<FileView>),
    Failed(Seq<char>),
}

/// A [`Note`] as it is seen in contracts.
pub enum NoteView {
    Silent,
    InvalidUrl(Seq<char>),
    AuthenticationFailed(Seq<char>),
    ItemNotAccessible(Seq<char>),
    MetadataNotAccessible(Seq<char>),
    OnlyPrivateFiles(int),
    NoFiles,
}

/// An [`Action`] as it is seen in contracts.
pub enum ActionView {
    ValidateUrl(Seq<char>),
    Authenticate(Seq<char>, Seq<char>),
    CheckItem(Seq<char>),
    CheckMetadata(Seq<char>),
    FetchMetadata(Seq<char>),
    Download(PlanView),
    Finish,
    Abort(NoteView, Option<ErrorView>),
}

impl View for Run {
    type V = RunView;

    open spec fn view(&self) -> RunView {
        RunView {
            url: self.url@,
            credentials: match self.credentials {
                Some((username, password)) => Some((username@, password@)),
                None => None,
            },
            stage: self.stage,
        }
    }
}

impl View for Event {
    type V = EventView;

    open spec fn view(&self) -> EventView {
        match self {
            Event::Done => EventView::Done,
            Event::Listed { files } => EventView::Listed(file_views(files@)),
            Event::Failed { message } => EventView::Failed(message@),
        }
    }
}

impl View for Note {
    type V = NoteView;

    open spec fn view(&self) -> NoteView {
        match self {
            Note::Silent => NoteView::Silent,
            Note::InvalidUrl { message } => NoteView::InvalidUrl(message@),
            Note::AuthenticationFailed { username } => NoteView::AuthenticationFailed(username@),
            Note::ItemNotAccessible { url } => NoteView::ItemNotAccessible(url@),
            Note::MetadataNotAccessible { url } => NoteView::MetadataNotAccessible(url@),
            Note::OnlyPrivateFiles { private_count } => NoteView::OnlyPrivateFiles(
                *private_count as int,
            ),
            Note::NoFiles => NoteView::NoFiles,
        }
    }
}

impl View for Action {
    type V = ActionView;

    open spec fn view(&self) -> ActionView {
        match self {
            Action::ValidateUrl { url } => ActionView::ValidateUrl(url@),
            Action::Authenticate { username, password } => ActionView::Authenticate(
                username@,
                password@,
            ),
            Action::CheckItem { url } => ActionView::CheckItem(url@),
            Action::CheckMetadata { url } => ActionView::CheckMetadata(url@),
            Action::FetchMetadata { url } => ActionView::FetchMetadata(url@),
            Action::Download { plan } => ActionView::Download(plan@),
            Action::Finish => ActionView::Finish,
            Action::Abort { note, error } => ActionView::Abort(
                note@,
                match error {
                    Some(error) => Some(error@),
                    None => None,
                },
            ),
        }
    }
}

impl RunView {
    /// The run at another stage.
    pub open spec fn at(self, stage: Stage) -> RunView {
        RunView { stage, ..self }
    }

    /// The URL of the file list of the item.
    pub open spec fn xml_url(self) -> Seq<char> {
        file_list_url(identifier_of(self.url))
    }

    /// Whether the run logs in.
    pub open spec fn authenticated(self) -> bool {
        self.credentials is Some
    }
}

/// Whether `event` can come of the action that a run waits for at `stage`: only
/// the file list comes with files.
pub open spec fn fits(stage: Stage, event: EventView) -> bool {
    match event {
        EventView::Done => stage != Stage::FetchingMetadata && stage != Stage::Ended,
        EventView::Listed(files) => stage == Stage::FetchingMetadata,
        EventView::Failed(message) => stage != Stage::Ended,
    }
}

/// What the spinner shows where the action of a stage failed.
pub open spec fn failure_note(run: RunView, message: Seq<char>) -> NoteView {
    match run.stage {
        Stage::Validating => NoteView::InvalidUrl(message),
        Stage::Authenticating => match run.credentials {
            Some((username, password)) => NoteView::AuthenticationFailed(username),
            None => NoteView::Silent,
        },
        Stage::CheckingItem => NoteView::ItemNotAccessible(run.url),
        Stage::CheckingMetadata => NoteView::MetadataNotAccessible(run.xml_url()),
        _ => NoteView::Silent,
    }
}

/// What follows from a plan: its downloads, or the end of the run.
pub open spec fn plan_step(run: RunView, plan: Result<PlanView, ErrorView>) -> (
    RunView,
    ActionView,
) {
    match plan {
        Err(error) => (
            run.at(Stage::Ended),
            ActionView::Abort(NoteView::Silent, Some(error)),
        ),
        Ok(plan) => match accepted(plan) {
            Ok(plan) => (run.at(Stage::Downloading), ActionView::Download(plan)),
            Err(error) => (
                run.at(Stage::Ended),
                ActionView::Abort(
                    if plan.private_count > 0 {
                        NoteView::OnlyPrivateFiles(plan.private_count)
                    } else {
                        NoteView::NoFiles
                    },
                    Some(error),
                ),
            ),
        },
    }
}

/// What follows from the success of the action of a stage.
pub open spec fn success_step(run: RunView) -> (RunView, ActionView) {
    match run.stage {
        Stage::Validating => match run.credentials {
            Some((username, password)) => (
                run.at(Stage::Authenticating),
                ActionView::Authenticate(username, password),
            ),
            None => (run.at(Stage::CheckingItem), ActionView::CheckItem(run.url)),
        },
        Stage::Authenticating => (run.at(Stage::CheckingItem), ActionView::CheckItem(run.url)),
        Stage::CheckingItem => (
            run.at(Stage::CheckingMetadata),
            ActionView::CheckMetadata(run.xml_url()),
        ),
        Stage::CheckingMetadata => match url_outcome(parsed_url(run.xml_url())) {
            Ok(base_url) => (
                run.at(Stage::FetchingMetadata),
                ActionView::FetchMetadata(run.xml_url()),
            ),
            Err(error) => (
                run.at(Stage::Ended),
                ActionView::Abort(NoteView::Silent, Some(error)),
            ),
        },
        _ => (run.at(Stage::Ended), ActionView::Finish),
    }
}

/// The plan of a run for the files of its item.
pub open spec fn run_plan(run: RunView, files: Seq<FileView>) -> Result<PlanView, ErrorView> {
    match url_outcome(parsed_url(run.xml_url())) {
        Ok(base_url) => planned(base_url, files, run.authenticated()),
        Err(error) => Err(error),
    }
}

/// What a run does next.
pub open spec fn next(run: RunView, event: EventView) -> (RunView, ActionView) {
    match event {
        EventView::Done => success_step(run),
        EventView::Listed(files) => plan_step(run, run_plan(run, files)),
        EventView::Failed(message) => (
            run.at(Stage::Ended),
            ActionView::Abort(failure_note(run, message), None),
        ),
    }
}

/// Whether the files that a run downloads all have relative names.
pub open spec fn stays_inside(files: Seq<FileView>, authenticated: bool) -> bool {
    forall|k: int|
        0 <= k < downloadable(files, authenticated).len() ==> is_relative_name(
            (#[trigger] downloadable(files, authenticated)[k]).name,
        )
}

/// Whether a plan downloads exactly `files`, each from the directory of the item
/// `identifier`, under its encoded name, with its own local name and hash.
pub open spec fn comes_from_item(
    plan: PlanView,
    identifier: Seq<char>,
    files: Seq<FileView>,
) -> bool {
    &&& plan.download_data.len() == files.len()
    &&& forall|k: int|
        0 <= k < files.len() ==> (#[trigger] plan.download_data[k]).url == item_directory(
            identifier,
        ) + encode_path(files[k].name) && plan.download_data[k].local_name == files[k].local_name
            && plan.download_data[k].md5 == files[k].md5
}

/// A run that has not begun.
pub open spec fn initial(url: Seq<char>, credentials: Option<(Seq<char>, Seq<char>)>) -> RunView {
    RunView { url, credentials, stage: Stage::Validating }
}

impl Run {
    /// Begins a run: its first action is the check of the URL.
    pub fn begin(url: String, credentials: Option<(String, String)>) -> (begun: (Run, Action))
        ensures
            begun.0@ == initial(
                url@,
                match credentials {
                    Some((username, password)) => Some((username@, password@)),
                    None => None,
                },
            ),
            begun.1@ == ActionView::ValidateUrl(url@),
            begun.0.url@ == url@,
            begun.0.credentials == credentials,
            begun.0.stage == Stage::Validating,
            begun.1 matches Action::ValidateUrl { url: first } && first@ == url@,
    {
        let action = Action::ValidateUrl { url: url.clone() };
        (Run { url, credentials, stage: Stage::Validating }, action)
    }

    /// Whether `event` can come of the action that the run waits for.
    pub fn accepts(&self, event: &Event) -> (accepted: bool)
        ensures
            accepted == fits(self@.stage, event@),
            accepted <==> match *event {
                Event::Done => self.stage == Stage::Validating || self.stage
                    == Stage::Authenticating || self.stage == Stage::CheckingItem || self.stage
                    == Stage::CheckingMetadata || self.stage == Stage::Downloading,
                Event::Listed { .. } => self.stage == Stage::FetchingMetadata,
                Event::Failed { .. } => self.stage != Stage::Ended,
            },
    {
        match event {
            Event::Done => self.stage != Stage::FetchingMetadata && self.stage != Stage::Ended,
            Event::Listed { .. } => self.stage == Stage::FetchingMetadata,
            Event::Failed { .. } => self.stage != Stage::Ended,
        }
    }

    /// Takes in what came of the action that the run waited for, and hands out
    /// the next one.
    pub fn advance(&mut self, event: Event) -> (action: Action)
        requires
            fits(old(self)@.stage, event@),
        ensures
            (final(self)@, action@) == next(old(self)@, event@),
            old(self)@.stage == Stage::CheckingMetadata && event@ == EventView::Done
                && is_plain_identifier(identifier_of(old(self)@.url)) ==> action@
                == ActionView::FetchMetadata(old(self)@.xml_url()),
            event@ matches EventView::Listed(files) ==> is_plain_identifier(
                identifier_of(old(self)@.url),
            ) && stays_inside(files, old(self)@.authenticated()) && downloadable(
                files,
                old(self)@.authenticated(),
            ).len() > 0 ==> (action@ matches ActionView::Download(plan) && comes_from_item(
                plan,
                identifier_of(old(self)@.url),
                downloadable(files, old(self)@.authenticated()),
            )),
            final(self).url == old(self).url,
            final(self).credentials == old(self).credentials,
            event matches Event::Listed { files } ==> (action matches Action::Download { plan }
                ==> exists|picks: Seq<int>| #[trigger]
                is_selection(picks, files@, old(self).credentials is Some)
                    && plan.download_data@.len() == picks.len() && plan.private_count
                    == files@.len() - picks.len() && forall|k: int|
                    0 <= k < picks.len() ==> {
                        let download = #[trigger] plan.download_data@[k];
                        let file = files@[picks[k]];
                        &&& download.local_name@ == file.local_name@
                        &&& download.md5 is Some <==> file.md5 is Some
                        &&& download.md5 is Some ==> download.md5->0@ == file.md5->0@
                        &&& joined_url(
                            parsed_url(file_list_url(identifier_of(old(self).url@)))->Ok_0,
                            encode_path(file.name@),
                        ) == Ok::<Seq<char>, Seq<char>>(download.url@)
                    }),
            event matches Event::Failed { message } ==> (action matches Action::Abort {
                note,
                error,
            } && error is None && match old(self).stage {
                Stage::Validating => note matches Note::InvalidUrl { message: shown } && shown@
                    == message@,
                Stage::Authenticating => match old(self).credentials {
                    Some((account, _)) => note matches Note::AuthenticationFailed { username }
                        && username@ == account@,
                    None => note is Silent,
                },
                Stage::CheckingItem => note matches Note::ItemNotAccessible { url } && url@
                    == old(self).url@,
                Stage::CheckingMetadata => note matches Note::MetadataNotAccessible { url } && url@
                    == file_list_url(identifier_of(old(self).url@)),
                _ => note is Silent,
            }),
    {
        proof {
            if event is Listed {
                let views = file_views(event->files@);
                law_downloads_carry_the_listed_files(
                    parsed_url(self@.xml_url())->Ok_0,
                    views,
                    self@.authenticated(),
                );
            }
        }
        match event {
            Event::Failed { message } => {
                let note = self.describe_break(message);
                self.stage = Stage::Ended;
                Action::Abort { note, error: None }
            },
            Event::Listed { files } => {
                let xml_url = get_xml_url(self.url.as_str());
                let plan = match parse_base_url(xml_url.as_str()) {
                    Ok(base_url) => plan_downloads(
                        base_url.as_str(),
                        &files,
                        self.credentials.is_some(),
                    ),
                    Err(error) => Err(error),
                };
                self.settle_plan(plan)
            },
            Event::Done => self.proceed(),
        }
    }

    /// What the spinner shows where the action of the stage failed.
    fn describe_break(&self, message: String) -> (note: Note)
        ensures
            note@ == failure_note(self@, message@),
    {
        match self.stage {
            Stage::Validating => Note::InvalidUrl { message },
            Stage::Authenticating => match &self.credentials {
                Some((username, _)) => Note::AuthenticationFailed { username: username.clone() },
                None => Note::Silent,
            },
            Stage::CheckingItem => Note::ItemNotAccessible { url: self.url.clone() },
            Stage::CheckingMetadata => Note::MetadataNotAccessible {
                url: get_xml_url(self.url.as_str()),
            },
            _ => Note::Silent,
        }
    }

    /// Goes on from a plan to its downloads, or ends the run.
    pub fn settle_plan(&mut self, plan: Result<DownloadPlan, IaGetError>) -> (action: Action)
        ensures
            (final(self)@, action@) == plan_step(old(self)@, plan_view(plan)),
            final(self).url == old(self).url,
            final(self).credentials == old(self).credentials,
            match plan {
                Err(problem) => final(self).stage == Stage::Ended && (
                action matches Action::Abort { note: Note::Silent, error: Some(error) } && error
                    == problem),
                Ok(plan) => if plan.download_data@.len() > 0 {
                    final(self).stage == Stage::Downloading && (
                    action matches Action::Download { plan: same } && same == plan)
                } else if plan.private_count > 0 {
                    final(self).stage == Stage::Ended && (action matches Action::Abort {
                        note: Note::OnlyPrivateFiles { private_count },
                        error: Some(IaGetError::Network(message)),
                    } && private_count == plan.private_count && message@
                        == "No downloadable files found. This archive may only contain private or restricted files. Try again with --username and --password (or --password-stdin)."@)
                } else {
                    final(self).stage == Stage::Ended && (action matches Action::Abort {
                        note: Note::NoFiles,
                        error: Some(IaGetError::Network(message)),
                    } && message@ == "No downloadable files found in archive metadata."@)
                },
            },
    {
        match plan {
            Err(error) => {
                self.stage = Stage::Ended;
                Action::Abort { note: Note::Silent, error: Some(error) }
            },
            Ok(plan) => {
                let private_count = plan.private_count;
                match accept_plan(plan) {
                    Ok(plan) => {
                        self.stage = Stage::Downloading;
                        Action::Download { plan }
                    },
                    Err(error) => {
                        self.stage = Stage::Ended;
                        let note = if private_count > 0 {
                            Note::OnlyPrivateFiles { private_count }
                        } else {
                            Note::NoFiles
                        };
                        Action::Abort { note, error: Some(error) }
                    },
                }
            },
        }
    }

    /// Goes on from the success of the action of the stage.
    fn proceed(&mut self) -> (action: Action)
        ensures
            (final(self)@, action@) == success_step(old(self)@),
            final(self).url == old(self).url,
            final(self).credentials == old(self).credentials,
            old(self)@.stage == Stage::CheckingMetadata && is_plain_identifier(
                identifier_of(old(self)@.url),
            ) ==> action@ == ActionView::FetchMetadata(old(self)@.xml_url()),
    {
        match self.stage {
            Stage::Validating => match &self.credentials {
                Some((username, password)) => {
                    let action = Action::Authenticate {
                        username: username.clone(),
                        password: password.clone(),
                    };
                    self.stage = Stage::Authenticating;
                    action
                },
                None => {
                    self.stage = Stage::CheckingItem;
                    Action::CheckItem { url: self.url.clone() }
                },
            },
            Stage::Authenticating => {
                self.stage = Stage::CheckingItem;
                Action::CheckItem { url: self.url.clone() }
            },
            Stage::CheckingItem => {
                self.stage = Stage::CheckingMetadata;
                Action::CheckMetadata { url: get_xml_url(self.url.as_str()) }
            },
            Stage::CheckingMetadata => {
                let xml_url = get_xml_url(self.url.as_str());
                match parse_base_url(xml_url.as_str()) {
                    Ok(_) => {
                        self.stage = Stage::FetchingMetadata;
                        Action::FetchMetadata { url: xml_url }
                    },
                    Err(error) => {
                        self.stage = Stage::Ended;
                        Action::Abort { note: Note::Silent, error: Some(error) }
                    },
                }
            },
            _ => {
                self.stage = Stage::Ended;
                Action::Finish
            },
        }
    }
}

/// Which events a run takes: a success at every step but the file list, files for
/// the file list alone, a failure at every step, and nothing once it has ended.
pub proof fn law_events_answer_the_step(
    stage: Stage,
    files: Seq<FileView>,
    message: Seq<char>,
)
    ensures
        fits(stage, EventView::Done) <==> stage == Stage::Validating || stage
            == Stage::Authenticating || stage == Stage::CheckingItem || stage
            == Stage::CheckingMetadata || stage == Stage::Downloading,
        fits(stage, EventView::Listed(files)) <==> stage == Stage::FetchingMetadata,
        fits(stage, EventView::Failed(message)) <==> stage != Stage::Ended,
{
}

/// What each success leads to: the login with the account of the run where it has
/// one, the item at the URL of the run, its file list, and in the end the finish.
/// URL and account stay what they were.
pub proof fn law_each_success_leads_on(run: RunView)
    ensures
        next(run, EventView::Done).0.url == run.url,
        next(run, EventView::Done).0.credentials == run.credentials,
        run.credentials matches Some((username, password)) ==> run.stage == Stage::Validating
            ==> next(run, EventView::Done).0.stage == Stage::Authenticating && next(
            run,
            EventView::Done,
        ).1 == ActionView::Authenticate(username, password),
        run.stage == Stage::Validating && run.credentials is None || run.stage
            == Stage::Authenticating ==> next(run, EventView::Done).0.stage == Stage::CheckingItem
            && next(run, EventView::Done).1 == ActionView::CheckItem(run.url),
        run.stage == Stage::CheckingItem ==> next(run, EventView::Done).0.stage
            == Stage::CheckingMetadata && next(run, EventView::Done).1
            == ActionView::CheckMetadata(file_list_url(identifier_of(run.url))),
        run.stage == Stage::CheckingMetadata ==> match parsed_url(
            file_list_url(identifier_of(run.url)),
        ) {
            Ok(base_url) => next(run, EventView::Done).0.stage == Stage::FetchingMetadata && next(
                run,
                EventView::Done,
            ).1 == ActionView::FetchMetadata(file_list_url(identifier_of(run.url))),
            Err(message) => next(run, EventView::Done).0.stage == Stage::Ended && next(
                run,
                EventView::Done,
            ).1 == ActionView::Abort(NoteView::Silent, Some(ErrorView::Url(message))),
        },
        run.stage == Stage::Downloading ==> next(run, EventView::Done).0.stage == Stage::Ended
            && next(run, EventView::Done).1 == ActionView::Finish,
{
}

/// What is shown where a step fails: the error for the URL, the account for the
/// login, the URL for a page that cannot be reached, and nothing new later on.
pub proof fn law_each_failure_is_noted(run: RunView, message: Seq<char>)
    ensures
        next(run, EventView::Failed(message)).0 == (RunView {
            url: run.url,
            credentials: run.credentials,
            stage: Stage::Ended,
        }),
        run.stage == Stage::Validating ==> next(run, EventView::Failed(message)).1
            == ActionView::Abort(NoteView::InvalidUrl(message), None),
        run.credentials matches Some((username, password)) ==> run.stage == Stage::Authenticating
            ==> next(run, EventView::Failed(message)).1 == ActionView::Abort(
            NoteView::AuthenticationFailed(username),
            None,
        ),
        run.stage == Stage::CheckingItem ==> next(run, EventView::Failed(message)).1
            == ActionView::Abort(NoteView::ItemNotAccessible(run.url), None),
        run.stage == Stage::CheckingMetadata ==> next(run, EventView::Failed(message)).1
            == ActionView::Abort(
            NoteView::MetadataNotAccessible(file_list_url(identifier_of(run.url))),
            None,
        ),
        run.stage == Stage::FetchingMetadata || run.stage == Stage::Downloading ==> next(
            run,
            EventView::Failed(message),
        ).1 == ActionView::Abort(NoteView::Silent, None),
{
}

/// What a file list leads to: the downloads of the files that the run may
/// download, each under its listed local name and with its listed hash; where
/// there are none, the end of the run, with the number of private files where
/// there are such.
pub proof fn law_file_list_leads_to_its_downloads(run: RunView, files: Seq<FileView>)
    requires
        run.stage == Stage::FetchingMetadata,
        parsed_url(file_list_url(identifier_of(run.url))) is Ok,
    ensures
        ({
            let base_url = parsed_url(file_list_url(identifier_of(run.url)))->Ok_0;
            let selected = downloadable(files, run.credentials is Some);
            let (after, action) = next(run, EventView::Listed(files));
            &&& after.url == run.url && after.credentials == run.credentials
            &&& action is Download <==> selected.len() > 0 && forall|k: int|
                0 <= k < selected.len() ==> joined_url(
                    base_url,
                    encode_path((#[trigger] selected[k]).name),
                ) is Ok
            &&& action matches ActionView::Download(plan) ==> {
                &&& after.stage == Stage::Downloading
                &&& plan.download_data.len() == selected.len()
                &&& plan.private_count == files.len() - selected.len()
                &&& forall|k: int|
                    0 <= k < selected.len() ==> {
                        let download = #[trigger] plan.download_data[k];
                        &&& download.local_name == selected[k].local_name
                        &&& download.md5 == selected[k].md5
                        &&& joined_url(base_url, encode_path(selected[k].name)) == Ok::<
                            Seq<char>,
                            Seq<char>,
                        >(download.url)
                    }
            }
            &&& action !is Download ==> after.stage == Stage::Ended && action is Abort
            &&& files.len() == 0 ==> action == ActionView::Abort(
                NoteView::NoFiles,
                Some(ErrorView::Network("No downloadable files found in archive metadata."@)),
            )
            &&& files.len() > 0 && selected.len() == 0 ==> action == ActionView::Abort(
                NoteView::OnlyPrivateFiles(files.len() as int),
                Some(
                    ErrorView::Network(
                        "No downloadable files found. This archive may only contain private or restricted files. Try again with --username and --password (or --password-stdin)."@,
                    ),
                ),
            )
        }),
{
    let base_url = parsed_url(file_list_url(identifier_of(run.url)))->Ok_0;
    law_downloads_carry_the_listed_files(base_url, files, run.credentials is Some);
    law_first_file_without_url_is_reported(base_url, files, run.credentials is Some);
    law_every_file_is_accounted_for(base_url, files, run.credentials is Some);
}

/// What contracts see of a run, of what came of its actions, of what it shows and
/// of what it asks for is what these hold.
pub proof fn law_run_views_hold_the_fields(
    run: Run,
    files: Vec<ListedFile>,
    text: String,
    other: String,
    count: usize,
    plan: DownloadPlan,
    note: Note,
    error: IaGetError,
)
    ensures
        run@.url == run.url@,
        run@.stage == run.stage,
        run@.credentials is Some <==> run.credentials is Some,
        run.credentials matches Some(account) ==> run@.credentials == Some(
            (account.0@, account.1@),
        ),
        (Event::Done)@ == EventView::Done,
        (Event::Listed { files })@ == EventView::Listed(file_views(files@)),
        (Event::Failed { message: text })@ == EventView::Failed(text@),
        (Note::Silent)@ == NoteView::Silent,
        (Note::InvalidUrl { message: text })@ == NoteView::InvalidUrl(text@),
        (Note::AuthenticationFailed { username: text })@ == NoteView::AuthenticationFailed(text@),
        (Note::ItemNotAccessible { url: text })@ == NoteView::ItemNotAccessible(text@),
        (Note::MetadataNotAccessible { url: text })@ == NoteView::MetadataNotAccessible(text@),
        (Note::OnlyPrivateFiles { private_count: count })@ == NoteView::OnlyPrivateFiles(
            count as int,
        ),
        (Note::NoFiles)@ == NoteView::NoFiles,
        (Action::ValidateUrl { url: text })@ == ActionView::ValidateUrl(text@),
        (Action::Authenticate { username: text, password: other })@ == ActionView::Authenticate(
            text@,
            other@,
        ),
        (Action::CheckItem { url: text })@ == ActionView::CheckItem(text@),
        (Action::CheckMetadata { url: text })@ == ActionView::CheckMetadata(text@),
        (Action::FetchMetadata { url: text })@ == ActionView::FetchMetadata(text@),
        (Action::Download { plan })@ == ActionView::Download(plan@),
        (Action::Finish)@ == ActionView::Finish,
        (Action::Abort { note, error: Some(error) })@ == ActionView::Abort(note@, Some(error@)),
        (Action::Abort { note, error: None })@ == ActionView::Abort(note@, None),
{
}

/// Where a run stands after `events`.
pub open spec fn follow(run: RunView, events: Seq<EventView>) -> RunView
    decreases events.len(),
{
    if events.len() == 0 {
        run
    } else {
        next(follow(run, events.drop_last()), events.last()).0
    }
}

/// Whether `events` can come to a run one after the other.
pub open spec fn can_happen(run: RunView, events: Seq<EventView>) -> bool
    decreases events.len(),
{
    events.len() > 0 ==> can_happen(run, events.drop_last()) && fits(
        follow(run, events.drop_last()).stage,
        events.last(),
    )
}

/// The stage that a run is at after `steps` successes: the URL is checked, the
/// account is logged in where there is one, the item and its file list are
/// reached, the list is read, the files are downloaded.
pub open spec fn stage_after(authenticated: bool, steps: int) -> Stage {
    let later = if authenticated {
        steps - 1
    } else {
        steps
    };
    if steps == 0 {
        Stage::Validating
    } else if later == 0 {
        Stage::Authenticating
    } else if later == 1 {
        Stage::CheckingItem
    } else if later == 2 {
        Stage::CheckingMetadata
    } else if later == 3 {
        Stage::FetchingMetadata
    } else if later == 4 {
        Stage::Downloading
    } else {
        Stage::Ended
    }
}

/// The steps of a run come in one order, and none is left out: as long as the
/// run has not ended, everything so far succeeded, and the stage tells how many
/// steps there were.
pub proof fn law_steps_come_in_order(
    url: Seq<char>,
    credentials: Option<(Seq<char>, Seq<char>)>,
    events: Seq<EventView>,
)
    requires
        can_happen(initial(url, credentials), events),
    ensures
        follow(initial(url, credentials), events).url == url,
        follow(initial(url, credentials), events).credentials == credentials,
        follow(initial(url, credentials), events).stage != Stage::Ended ==> follow(
            initial(url, credentials),
            events,
        ).stage == stage_after(credentials is Some, events.len() as int),
        follow(initial(url, credentials), events).stage != Stage::Ended ==> forall|i: int|
            0 <= i < events.len() ==> (#[trigger] events[i]) !is Failed,
    decreases events.len(),
{
    let run = initial(url, credentials);
    if events.len() > 0 {
        let earlier = events.drop_last();
        law_steps_come_in_order(url, credentials, earlier);
        if follow(run, events).stage != Stage::Ended {
            assert forall|i: int| 0 <= i < events.len() implies (#[trigger] events[i]) !is Failed by {
                if i < earlier.len() {
                    assert(events[i] == earlier[i]);
                }
            }
        }
    }
}

/// Downloads begin only after every earlier step succeeded, the login included
/// where there are credentials, and the plan is that of the files that the list
/// just gave.
pub proof fn law_downloads_come_last(
    url: Seq<char>,
    credentials: Option<(Seq<char>, Seq<char>)>,
    events: Seq<EventView>,
    event: EventView,
    plan: PlanView,
)
    requires
        can_happen(initial(url, credentials), events.push(event)),
        next(follow(initial(url, credentials), events), event).1 == ActionView::Download(plan),
    ensures
        events.len() == if credentials is Some {
            4int
        } else {
            3int
        },
        forall|i: int| 0 <= i < events.len() ==> #[trigger] events[i] == EventView::Done,
        event matches EventView::Listed(files) && run_plan(initial(url, credentials), files) == Ok::<
            PlanView,
            ErrorView,
        >(plan),
        plan.download_data.len() > 0,
{
    let run = initial(url, credentials);
    assert(events.push(event).drop_last() =~= events);
    law_steps_come_in_order(url, credentials, events);
    assert(follow(run, events).stage == Stage::FetchingMetadata);
    assert(run_plan(follow(run, events), event->Listed_0) == run_plan(run, event->Listed_0));
    lemma_only_the_list_comes_with_files(run, events);
}

proof fn lemma_only_the_list_comes_with_files(run: RunView, events: Seq<EventView>)
    requires
        run.stage == Stage::Validating,
        can_happen(run, events),
        follow(run, events).stage != Stage::Ended,
        follow(run, events).stage != Stage::Downloading,
    ensures
        forall|i: int| 0 <= i < events.len() ==> #[trigger] events[i] == EventView::Done,
    decreases events.len(),
{
    if events.len() > 0 {
        let earlier = events.drop_last();
        assert(fits(follow(run, earlier).stage, events.last()));
        lemma_only_the_list_comes_with_files(run, earlier);
        assert forall|i: int| 0 <= i < events.len() implies #[trigger] events[i]
            == EventView::Done by {
            if i < earlier.len() {
                assert(events[i] == earlier[i]);
            }
        }
    }
}

/// A failure ends the run, with the error of the failed step.
pub proof fn law_failure_ends_the_run(run: RunView, message: Seq<char>)
    ensures
        next(run, EventView::Failed(message)).0.stage == Stage::Ended,
        next(run, EventView::Failed(message)).1 matches ActionView::Abort(note, error)
            && error is None,
{
}

/// A run logs in exactly where it has credentials, with those, and right after
/// its URL was found valid.
pub proof fn law_login_follows_validation(run: RunView, event: EventView)
    requires
        fits(run.stage, event),
    ensures
        next(run, event).1 matches ActionView::Authenticate(username, password) ==> run.stage
            == Stage::Validating && event == EventView::Done && run.credentials == Some(
            (username, password),
        ),
        run.stage == Stage::Validating && event == EventView::Done && run.credentials is Some
            ==> next(run, event).1 is Authenticate,
{
}

/// A run ends well only after its downloads did.
pub proof fn law_only_downloads_finish_a_run(run: RunView, event: EventView)
    requires
        fits(run.stage, event),
    ensures
        next(run, event).1 is Finish <==> run.stage == Stage::Downloading && event
            == EventView::Done,
        next(run, event).0.stage == Stage::Ended <==> next(run, event).1 is Finish || next(
            run,
            event,
        ).1 is Abort,
{
}

} // verus!
