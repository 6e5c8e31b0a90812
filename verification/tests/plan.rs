use ia_get_core::error::IaGetError;
use ia_get_core::plan::{
    accept_plan, assemble_plan, plan_downloads, private_file, select_files, Download,
    DownloadPlan, ListedFile,
};
use ia_get_core::report::{list_notices, plural_suffix, Notice};

const BASE: &str = "https://archive.org/download/item1/item1_files.xml";

fn file(name: &str, private: Option<&str>) -> ListedFile {
    let local_name = name.replace('?', "_");
    ListedFile {
        name: name.to_string(),
        private: private.map(|mark| mark.to_string()),
        md5: Some(format!("md5 of {}", name)),
        renamed: local_name != name,
        local_name,
    }
}

fn download(url: &str, local_name: &str, name: &str) -> Download {
    Download {
        url: url.to_string(),
        local_name: local_name.to_string(),
        md5: Some(format!("md5 of {}", name)),
    }
}

#[test]
fn private_mark_reads_true_in_any_case() {
    for mark in ["true", "TRUE", "True", " tRuE\n", "\u{a0}true\u{2003}"] {
        assert!(private_file(&file("x", Some(mark))), "{}", mark);
    }
    for mark in ["false", "", "tru", "truee", "t rue", "1", "ｔｒｕｅ", "trüe"] {
        assert!(!private_file(&file("x", Some(mark))), "{}", mark);
    }
    assert!(!private_file(&file("x", None)));
}

#[test]
fn private_files_are_left_out_without_a_login() {
    let files = vec![
        file("a", None),
        file("b", Some("true")),
        file("c", Some("false")),
        file("d", Some("TRUE")),
    ];
    let (selected, private_count) = select_files(&files, false);
    let names: Vec<&str> = selected.iter().map(|file| file.name.as_str()).collect();
    assert_eq!(names, vec!["a", "c"]);
    assert_eq!(private_count, 2);

    let (selected, private_count) = select_files(&files, true);
    assert_eq!(selected.len(), 4);
    assert_eq!(private_count, 0);
}

#[test]
fn plan_names_every_download() {
    let files = vec![
        file("disc 1/what?.iso", None),
        file("secret.bin", Some("true")),
        file("b.txt", None),
    ];
    assert_eq!(
        plan_downloads(BASE, &files, false),
        Ok(DownloadPlan {
            download_data: vec![
                download(
                    "https://archive.org/download/item1/disc%201/what%3F.iso",
                    "disc 1/what_.iso",
                    "disc 1/what?.iso"
                ),
                download("https://archive.org/download/item1/b.txt", "b.txt", "b.txt"),
            ],
            sanitized_files: vec![(
                "disc 1/what?.iso".to_string(),
                "disc 1/what_.iso".to_string()
            )],
            private_count: 1,
        })
    );
    let plan = plan_downloads(BASE, &files, true).expect("plan");
    assert_eq!(plan.private_count, 0);
    assert_eq!(
        plan.download_data[1].url,
        "https://archive.org/download/item1/secret.bin"
    );
}

#[test]
fn every_file_is_downloaded_or_counted() {
    let files: Vec<ListedFile> = (0..20)
        .map(|i| {
            let mark = if i % 3 == 0 { Some("true") } else { None };
            file(&format!("f{}?", i), mark)
        })
        .collect();
    for authenticated in [false, true] {
        let plan = plan_downloads(BASE, &files, authenticated).expect("plan");
        assert_eq!(plan.download_data.len() + plan.private_count, files.len());
        assert_eq!(plan.sanitized_files.len(), plan.download_data.len());
    }
}

#[test]
fn missing_md5_stays_missing() {
    let mut one = file("a", None);
    one.md5 = None;
    let plan = plan_downloads(BASE, &vec![one], false).expect("plan");
    assert_eq!(plan.download_data[0].md5, None);
}

#[test]
fn file_without_a_url_ends_the_planning() {
    let files = vec![file("a", None), file("b", None)];
    assert_eq!(
        plan_downloads("no base", &files, false),
        Err(IaGetError::Url("relative URL without a base".to_string()))
    );
    let hidden = vec![file("a", Some("true"))];
    assert!(plan_downloads("no base", &hidden, false).is_ok());
}

#[test]
fn first_bad_url_counts() {
    let files = vec![file("a", None), file("b", None), file("c", None)];
    let selected: Vec<&ListedFile> = files.iter().collect();
    let urls = vec![
        Ok("u".to_string()),
        Err(IaGetError::Url("one".to_string())),
        Err(IaGetError::Url("two".to_string())),
    ];
    assert_eq!(
        assemble_plan(&selected, &urls, 0),
        Err(IaGetError::Url("one".to_string()))
    );
}

#[test]
fn empty_plans_are_refused() {
    let plan = plan_downloads(BASE, &vec![file("a", Some("true"))], false).expect("plan");
    assert_eq!(
        accept_plan(plan),
        Err(IaGetError::Network(
            "No downloadable files found. This archive may only contain private or restricted files. Try again with --username and --password (or --password-stdin).".to_string()
        ))
    );
    let plan = plan_downloads(BASE, &vec![], true).expect("plan");
    assert_eq!(
        accept_plan(plan),
        Err(IaGetError::Network(
            "No downloadable files found in archive metadata.".to_string()
        ))
    );
    let plan = plan_downloads(BASE, &vec![file("a", None)], false).expect("plan");
    assert!(accept_plan(plan).is_ok());
}

#[test]
fn notices_come_in_order() {
    let files = vec![
        file("a?", None),
        file("b", Some("true")),
        file("c?", None),
        file("d", None),
    ];
    let plan = plan_downloads(BASE, &files, false).expect("plan");
    assert_eq!(
        list_notices(&plan, false),
        vec![
            Notice::Sanitized {
                original: "a?".to_string(),
                sanitized: "a_".to_string()
            },
            Notice::Sanitized {
                original: "c?".to_string(),
                sanitized: "c_".to_string()
            },
            Notice::PrivateSkipped { count: 1 },
            Notice::SanitizedTotal { count: 2 },
        ]
    );
    let plan = plan_downloads(BASE, &vec![file("d", None)], true).expect("plan");
    assert_eq!(list_notices(&plan, true), vec![Notice::SessionActive]);
    assert_eq!(list_notices(&plan, false), vec![]);
}

#[test]
fn only_one_is_singular() {
    assert_eq!(plural_suffix(0), "s");
    assert_eq!(plural_suffix(1), "");
    assert_eq!(plural_suffix(2), "s");
}
