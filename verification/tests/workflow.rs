use ia_get_core::error::IaGetError;
use ia_get_core::plan::ListedFile;
use ia_get_core::workflow::{Action, Event, Note, Run, Stage};

const URL: &str = "https://archive.org/details/item1/";
const XML_URL: &str = "https://archive.org/download/item1/item1_files.xml";

fn file(name: &str, private: Option<&str>) -> ListedFile {
    ListedFile {
        name: name.to_string(),
        private: private.map(|mark| mark.to_string()),
        md5: None,
        local_name: name.to_string(),
        renamed: false,
    }
}

fn account() -> Option<(String, String)> {
    Some(("me".to_string(), "pw".to_string()))
}

fn begin(credentials: Option<(String, String)>) -> Run {
    let (run, action) = Run::begin(URL.to_string(), credentials);
    assert_eq!(
        action,
        Action::ValidateUrl {
            url: URL.to_string()
        }
    );
    run
}

/// A run after so many successes.
fn after(credentials: Option<(String, String)>, steps: usize) -> Run {
    let mut run = begin(credentials);
    for _ in 0..steps {
        run.advance(Event::Done);
    }
    run
}

fn failed(run: &mut Run) -> Action {
    run.advance(Event::Failed {
        message: "broken".to_string(),
    })
}

fn abort(note: Note) -> Action {
    Action::Abort { note, error: None }
}

#[test]
fn run_without_account_goes_through_its_steps() {
    let mut run = begin(None);
    assert_eq!(
        run.advance(Event::Done),
        Action::CheckItem {
            url: URL.to_string()
        }
    );
    assert_eq!(
        run.advance(Event::Done),
        Action::CheckMetadata {
            url: XML_URL.to_string()
        }
    );
    assert_eq!(
        run.advance(Event::Done),
        Action::FetchMetadata {
            url: XML_URL.to_string()
        }
    );
    let files = vec![file("a b", None), file("hidden", Some("true"))];
    match run.advance(Event::Listed { files }) {
        Action::Download { plan } => {
            assert_eq!(plan.private_count, 1);
            assert_eq!(plan.download_data.len(), 1);
            assert_eq!(
                plan.download_data[0].url,
                "https://archive.org/download/item1/a%20b"
            );
        }
        other => panic!("{:?}", other),
    }
    assert_eq!(run.advance(Event::Done), Action::Finish);
    assert_eq!(run.stage, Stage::Ended);
}

#[test]
fn run_with_account_logs_in_first_and_gets_private_files() {
    let mut run = begin(account());
    assert_eq!(
        run.advance(Event::Done),
        Action::Authenticate {
            username: "me".to_string(),
            password: "pw".to_string()
        }
    );
    assert_eq!(
        run.advance(Event::Done),
        Action::CheckItem {
            url: URL.to_string()
        }
    );
    run.advance(Event::Done);
    run.advance(Event::Done);
    let files = vec![file("hidden", Some("true"))];
    match run.advance(Event::Listed { files }) {
        Action::Download { plan } => assert_eq!(plan.download_data.len(), 1),
        other => panic!("{:?}", other),
    }
}

#[test]
fn failures_end_the_run_with_their_note() {
    assert_eq!(
        failed(&mut after(account(), 0)),
        abort(Note::InvalidUrl {
            message: "broken".to_string()
        })
    );
    assert_eq!(
        failed(&mut after(account(), 1)),
        abort(Note::AuthenticationFailed {
            username: "me".to_string()
        })
    );
    assert_eq!(
        failed(&mut after(None, 1)),
        abort(Note::ItemNotAccessible {
            url: URL.to_string()
        })
    );
    assert_eq!(
        failed(&mut after(None, 2)),
        abort(Note::MetadataNotAccessible {
            url: XML_URL.to_string()
        })
    );
    let mut run = after(None, 3);
    assert_eq!(failed(&mut run), abort(Note::Silent));
    assert_eq!(run.stage, Stage::Ended);
}

#[test]
fn failed_downloads_end_the_run_silently() {
    let mut run = after(None, 3);
    run.advance(Event::Listed {
        files: vec![file("a", None)],
    });
    assert_eq!(run.stage, Stage::Downloading);
    assert_eq!(failed(&mut run), abort(Note::Silent));
}

#[test]
fn items_without_downloads_end_the_run() {
    let mut run = after(None, 3);
    let action = run.advance(Event::Listed {
        files: vec![file("a", Some("true")), file("b", Some("true"))],
    });
    match action {
        Action::Abort {
            note: Note::OnlyPrivateFiles { private_count: 2 },
            error: Some(IaGetError::Network(message)),
        } => assert!(message.contains("--username")),
        other => panic!("{:?}", other),
    }

    let mut run = after(None, 3);
    let action = run.advance(Event::Listed { files: vec![] });
    match action {
        Action::Abort {
            note: Note::NoFiles,
            error: Some(IaGetError::Network(message)),
        } => assert_eq!(message, "No downloadable files found in archive metadata."),
        other => panic!("{:?}", other),
    }
}

#[test]
fn plans_with_errors_end_the_run() {
    let mut run = after(None, 3);
    let error = IaGetError::Url("bad".to_string());
    assert_eq!(
        run.settle_plan(Err(error.clone())),
        Action::Abort {
            note: Note::Silent,
            error: Some(error)
        }
    );
    assert_eq!(run.stage, Stage::Ended);
}

#[test]
fn only_the_file_list_comes_with_files() {
    let done = Event::Done;
    let listed = Event::Listed { files: vec![] };
    let failed = Event::Failed {
        message: String::new(),
    };
    for steps in 0..3 {
        let run = after(None, steps);
        assert!(run.accepts(&done) && run.accepts(&failed) && !run.accepts(&listed));
    }
    let mut run = after(None, 3);
    assert!(!run.accepts(&done) && run.accepts(&failed) && run.accepts(&listed));
    run.advance(failed);
    assert!(!run.accepts(&done) && !run.accepts(&listed));
}
