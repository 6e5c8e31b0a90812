//! Which files of an item are downloaded, from where, and under which names.

use crate::encoding::encode_path;
use crate::error::{ErrorView, IaGetError};
use crate::text::{
    ascii_lower, ascii_lowercase, is_white_space, law_trimming_takes_white_space_off, option_view,
    reads, to_lowercase, trim, trimmed,
};
use crate::url_syntax::joined_url;
use crate::urls::{
    download_url, file_list_url, is_plain_identifier, is_relative_name, item_directory,
    url_outcome, url_view,
};
use vstd::prelude::*;

verus! {

/// A file that the metadata of an item lists, with the name that it gets on the
/// local file system.
#[derive(Debug, PartialEq, Eq)]
pub struct ListedFile {
    /// The literal path of the file in the item.
    pub name: String,
    /// The `private` mark of the metadata, as it is written there.
    pub private: Option<String>,
    /// The MD5 hash of the file.
    pub md5: Option<String>,
    /// The name made fit for the local file system.
    pub local_name: String,
    /// Whether making it fit changed the name.
    pub renamed: bool,
}

/// A file to download.
#[derive(Debug, PartialEq, Eq)]
pub struct Download {
    /// Where it comes from.
    pub url: String,
    /// The name that it is stored under.
    pub local_name: String,
    /// The MD5 hash to hold it against.
    pub md5: Option<String>,
}

/// What a run downloads, and what it has to tell about that.
#[derive(Debug, PartialEq, Eq)]
pub struct DownloadPlan {
    /// The files to download, in the order of the metadata.
    pub download_data: Vec<Download>,
    /// The files that are stored under another name: the name in the item and
    /// the local one.
    pub sanitized_files: Vec<(String, String)>,
    /// How many private files are left out.
    pub private_count: usize,
}

/// A [`ListedFile`] as it is seen in contracts.
pub struct FileView {
    pub name: Seq<char>,
    pub private: Option<Seq<char>>,
    pub md5: Option<Seq<char>>,
    pub local_name: Seq<char>,
    pub renamed: bool,
}

/// A [`Download`] as it is seen in contracts.
pub struct DownloadView {
    pub url: Seq<char>,
    pub local_name: Seq<char>,
    pub md5: Option<Seq<char>>,
}

/// A [`DownloadPlan`] as it is seen in contracts.
#[verifier::ext_equal]
pub struct PlanView {
    pub download_data: Seq<DownloadView>,
    pub sanitized_files: Seq<(Seq<char>, Seq<char>)>,
    pub private_count: int,
}

impl View for ListedFile {
    type V = FileView;

    open spec fn view(&self) -> FileView {
        FileView {
            name: self.name@,
            private: option_view(self.private),
            md5: option_view(self.md5),
            local_name: self.local_name@,
            renamed: self.renamed,
        }
    }
}

impl View for Download {
    type V = DownloadView;

    open spec fn view(&self) -> DownloadView {
        DownloadView {
            url: self.url@,
            local_name: self.local_name@,
            md5: option_view(self.md5),
        }
    }
}

impl View for DownloadPlan {
    type V = PlanView;

    open spec fn view(&self) -> PlanView {
        PlanView {
            download_data: self.download_data@.map_values(|download: Download| download@),
            sanitized_files: self.sanitized_files@.map_values(
                |names: (String, String)| (names.0@, names.1@),
            ),
            private_count: self.private_count as int,
        }
    }
}

/// Listed files as they are seen in contracts.
pub open spec fn file_views(files: Seq<ListedFile>) -> Seq<FileView> {
    files.map_values(|file: ListedFile| file@)
}

/// Selected files as they are seen in contracts.
pub open spec fn selected_views(files: Seq<&ListedFile>) -> Seq<FileView> {
    files.map_values(|file: &ListedFile| file@)
}

/// A file is private where its mark reads `true`, in any case and whatever white
/// space surrounds it.
pub open spec fn is_private(file: FileView) -> bool {
    file.private is Some && ascii_lowercase(trimmed(file.private->0)) == "true"@
}

/// Whether a mark says `true`: the four letters, each in either case, with white
/// space alone before and behind them.
pub open spec fn says_true(mark: Seq<char>) -> bool {
    exists|a: int|
        #![trigger mark[a]]
        0 <= a && a + 4 <= mark.len() && (mark[a] == 't' || mark[a] == 'T') && (mark[a + 1]
            == 'r' || mark[a + 1] == 'R') && (mark[a + 2] == 'u' || mark[a + 2] == 'U') && (
        mark[a + 3] == 'e' || mark[a + 3] == 'E') && (forall|i: int|
            0 <= i < a ==> is_white_space(#[trigger] mark[i])) && (forall|i: int|
            a + 4 <= i < mark.len() ==> is_white_space(#[trigger] mark[i]))
}

/// Whether `picks` are the places of the files that a run may download: in
/// order, and all of them but those whose mark says `true` where there is no
/// login.
pub open spec fn is_selection(picks: Seq<int>, files: Seq<ListedFile>, authenticated: bool) -> bool {
    &&& forall|k: int| 0 <= k < picks.len() ==> 0 <= #[trigger] picks[k] < files.len()
    &&& forall|j: int, k: int| 0 <= j < k < picks.len() ==> #[trigger] picks[j] < #[trigger] picks[k]
    &&& forall|i: int|
        0 <= i < files.len() ==> (#[trigger] picks.contains(i) <==> authenticated || !(
        files[i].private matches Some(mark) && says_true(mark@)))
}

/// Whether `told` are the places of the files that are stored under another name,
/// in order and all of them.
pub open spec fn lists_renamed(told: Seq<int>, files: Seq<&ListedFile>) -> bool {
    &&& forall|k: int| 0 <= k < told.len() ==> 0 <= #[trigger] told[k] < files.len()
    &&& forall|j: int, k: int| 0 <= j < k < told.len() ==> #[trigger] told[j] < #[trigger] told[k]
    &&& forall|i: int|
        0 <= i < files.len() ==> (#[trigger] told.contains(i) <==> files[i].renamed)
}

/// Private files are for authenticated runs only.
pub open spec fn is_downloadable(file: FileView, authenticated: bool) -> bool {
    authenticated || !is_private(file)
}

/// The files that a run may download.
pub open spec fn downloadable(files: Seq<FileView>, authenticated: bool) -> Seq<FileView> {
    files.filter(|file: FileView| is_downloadable(file, authenticated))
}

/// The files that are stored under another name than their own.
pub open spec fn renamed_files(files: Seq<FileView>) -> Seq<(Seq<char>, Seq<char>)> {
    files.filter(|file: FileView| file.renamed).map_values(
        |file: FileView| (file.name, file.local_name),
    )
}

/// The first error among `urls`.
pub open spec fn first_error(urls: Seq<Result<Seq<char>, ErrorView>>) -> Option<ErrorView>
    decreases urls.len(),
{
    if urls.len() == 0 {
        None
    } else {
        match first_error(urls.drop_last()) {
            Some(error) => Some(error),
            None => match urls.last() {
                Ok(url) => None,
                Err(error) => Some(error),
            },
        }
    }
}

/// The plan that downloads each of `files` from the URL at the same place.
pub open spec fn plan_of(
    files: Seq<FileView>,
    urls: Seq<Result<Seq<char>, ErrorView>>,
    private_count: int,
) -> PlanView {
    PlanView {
        download_data: Seq::new(
            files.len(),
            |i: int|
                DownloadView {
                    url: urls[i]->Ok_0,
                    local_name: files[i].local_name,
                    md5: files[i].md5,
                },
        ),
        sanitized_files: renamed_files(files),
        private_count,
    }
}

/// The plan for `files` with their URLs, or the first error among those.
pub open spec fn assembled(
    files: Seq<FileView>,
    urls: Seq<Result<Seq<char>, ErrorView>>,
    private_count: int,
) -> Result<PlanView, ErrorView> {
    match first_error(urls) {
        Some(error) => Err(error),
        None => Ok(plan_of(files, urls, private_count)),
    }
}

/// The download URLs of `files`, next to the file list at `base_url`.
pub open spec fn file_urls(base_url: Seq<char>, files: Seq<FileView>) -> Seq<
    Result<Seq<char>, ErrorView>,
> {
    files.map_values(
        |file: FileView| url_outcome(joined_url(base_url, encode_path(file.name))),
    )
}

/// The plan for an item with these `files`.
pub open spec fn planned(base_url: Seq<char>, files: Seq<FileView>, authenticated: bool) -> Result<
    PlanView,
    ErrorView,
> {
    let selected = downloadable(files, authenticated);
    assembled(selected, file_urls(base_url, selected), files.len() - selected.len())
}

/// A planning result as it is seen in contracts.
pub open spec fn plan_view(plan: Result<DownloadPlan, IaGetError>) -> Result<PlanView, ErrorView> {
    match plan {
        Ok(plan) => Ok(plan@),
        Err(error) => Err(error@),
    }
}

/// URLs as they are seen in contracts.
pub open spec fn url_views(urls: Seq<Result<String, IaGetError>>) -> Seq<
    Result<Seq<char>, ErrorView>,
> {
    urls.map_values(|url: Result<String, IaGetError>| url_view(url))
}

proof fn lemma_filter_step<A>(items: Seq<A>, i: int, keep: spec_fn(A) -> bool)
    requires
        0 <= i < items.len(),
    ensures
        items.take(i + 1).filter(keep) == if keep(items[i]) {
            items.take(i).filter(keep).push(items[i])
        } else {
            items.take(i).filter(keep)
        },
{
    reveal(Seq::filter);
    assert(items.take(i + 1).drop_last() =~= items.take(i));
}

proof fn lemma_first_error_persists(urls: Seq<Result<Seq<char>, ErrorView>>, n: int)
    requires
        0 <= n <= urls.len(),
        first_error(urls.take(n)) is Some,
    ensures
        first_error(urls) == first_error(urls.take(n)),
    decreases urls.len(),
{
    if n == urls.len() {
        assert(urls.take(n) =~= urls);
    } else {
        assert(urls.drop_last().take(n) =~= urls.take(n));
        lemma_first_error_persists(urls.drop_last(), n);
    }
}

/// Filtering lists the items that are kept, in order.
proof fn lemma_filter_lists<A>(items: Seq<A>, keep: spec_fn(A) -> bool) -> (picks: Seq<int>)
    ensures
        picks.len() == items.filter(keep).len(),
        forall|k: int| 0 <= k < picks.len() ==> 0 <= #[trigger] picks[k] < items.len(),
        forall|k: int|
            0 <= k < picks.len() ==> #[trigger] items.filter(keep)[k] == items[picks[k]],
        forall|j: int, k: int|
            0 <= j < k < picks.len() ==> #[trigger] picks[j] < #[trigger] picks[k],
        forall|i: int|
            0 <= i < items.len() ==> (#[trigger] picks.contains(i) <==> keep(items[i])),
    decreases items.len(),
{
    reveal(Seq::filter);
    if items.len() == 0 {
        Seq::empty()
    } else {
        let init = items.drop_last();
        let n = init.len() as int;
        let earlier = lemma_filter_lists(init, keep);
        if keep(items.last()) {
            let picks = earlier.push(n);
            assert forall|i: int| 0 <= i < items.len() implies (#[trigger] picks.contains(i)
                <==> keep(items[i])) by {
                if i == n {
                    assert(picks[earlier.len() as int] == n);
                } else {
                    assert(items[i] == init[i]);
                    if earlier.contains(i) {
                        let k = choose|k: int| 0 <= k < earlier.len() && earlier[k] == i;
                        assert(picks[k] == i);
                    }
                    if picks.contains(i) {
                        let k = choose|k: int| 0 <= k < picks.len() && picks[k] == i;
                        assert(earlier[k] == i);
                    }
                }
            }
            picks
        } else {
            assert forall|i: int| 0 <= i < items.len() implies (#[trigger] earlier.contains(i)
                <==> keep(items[i])) by {
                if i < n {
                    assert(items[i] == init[i]);
                }
            }
            earlier
        }
    }
}

proof fn lemma_says_true(mark: Seq<char>)
    ensures
        says_true(mark) <==> ascii_lowercase(trimmed(mark)) == "true"@,
{
    reveal_strlit("true");
    let kept = law_trimming_takes_white_space_off(mark);
    let inner = trimmed(mark);
    let lower = ascii_lowercase(inner);
    if says_true(mark) {
        let a = choose|a: int|
            #![trigger mark[a]]
            0 <= a && a + 4 <= mark.len() && (mark[a] == 't' || mark[a] == 'T') && (mark[a + 1]
                == 'r' || mark[a + 1] == 'R') && (mark[a + 2] == 'u' || mark[a + 2] == 'U') && (
            mark[a + 3] == 'e' || mark[a + 3] == 'E') && (forall|i: int|
                0 <= i < a ==> is_white_space(#[trigger] mark[i])) && (forall|i: int|
                a + 4 <= i < mark.len() ==> is_white_space(#[trigger] mark[i]));
        assert(!is_white_space(mark[a]) && !is_white_space(mark[a + 3]));
        assert(kept.0 == a && kept.1 == a + 4);
        assert(lower =~= "true"@);
    }
    if lower == "true"@ {
        assert(lower.len() == inner.len());
        assert(inner.len() == 4);
        let a = kept.0;
        assert(kept.1 == a + 4);
        assert(ascii_lower(mark[a]) == lower[0]);
        assert(ascii_lower(mark[a + 1]) == lower[1]);
        assert(ascii_lower(mark[a + 2]) == lower[2]);
        assert(ascii_lower(mark[a + 3]) == lower[3]);
    }
}

proof fn lemma_selection(files: Seq<ListedFile>, authenticated: bool) -> (picks: Seq<int>)
    ensures
        is_selection(picks, files, authenticated),
        picks.len() == downloadable(file_views(files), authenticated).len(),
        forall|k: int|
            0 <= k < picks.len() ==> #[trigger] downloadable(file_views(files), authenticated)[k]
                == files[picks[k]]@,
{
    let views = file_views(files);
    let keep = |file: FileView| is_downloadable(file, authenticated);
    let picks = lemma_filter_lists(views, keep);
    assert forall|i: int| 0 <= i < files.len() implies (#[trigger] picks.contains(i)
        <==> authenticated || !(files[i].private matches Some(mark) && says_true(mark@))) by {
        assert(views[i] == files[i]@);
        if files[i].private is Some {
            lemma_says_true(files[i].private->0@);
        }
    }
    picks
}

proof fn lemma_renamed(files: Seq<&ListedFile>) -> (told: Seq<int>)
    ensures
        lists_renamed(told, files),
        told.len() == renamed_files(selected_views(files)).len(),
        forall|k: int|
            0 <= k < told.len() ==> #[trigger] renamed_files(selected_views(files))[k] == (
                files[told[k]].name@,
                files[told[k]].local_name@,
            ),
{
    let views = selected_views(files);
    let renamed = |file: FileView| file.renamed;
    let told = lemma_filter_lists(views, renamed);
    assert forall|i: int| 0 <= i < files.len() implies (#[trigger] told.contains(i)
        <==> files[i].renamed) by {
        assert(views[i] == files[i]@);
    }
    assert forall|k: int| 0 <= k < told.len() implies #[trigger] renamed_files(views)[k] == (
        files[told[k]].name@,
        files[told[k]].local_name@,
    ) by {
        assert(views.filter(renamed)[k] == views[told[k]]);
    }
    told
}

/// Whether the metadata marks a file as private.
pub fn private_file(file: &ListedFile) -> (private: bool)
    ensures
        private == is_private(file@),
        private <==> (file.private matches Some(mark) && says_true(mark@)),
{
    proof {
        if file.private is Some {
            lemma_says_true(file.private->0@);
        }
    }
    match &file.private {
        Some(mark) => {
            let inner = trim(mark.as_str());
            reads(&to_lowercase(inner.as_str()), "true")
        },
        None => false,
    }
}

/// Selects the files that a run may download, and counts the others.
pub fn select_files<'a>(files: &'a Vec<ListedFile>, authenticated: bool) -> (selection: (
    Vec<&'a ListedFile>,
    usize,
))
    ensures
        selected_views(selection.0@) == downloadable(file_views(files@), authenticated),
        selection.1 == files@.len() - selection.0@.len(),
        exists|picks: Seq<int>| #[trigger]
            is_selection(picks, files@, authenticated) && picks.len() == selection.0@.len()
                && forall|k: int|
                0 <= k < picks.len() ==> (#[trigger] selection.0@[k])@ == files@[picks[k]]@,
{
    let mut selected: Vec<&'a ListedFile> = Vec::new();
    let mut private_count: usize = 0;
    let ghost all = file_views(files@);
    let ghost keep = |file: FileView| is_downloadable(file, authenticated);
    let mut i: usize = 0;
    proof {
        assert(all.take(0).filter(keep) =~= Seq::<FileView>::empty()) by {
            reveal(Seq::filter);
        }
        assert(selected_views(selected@) =~= Seq::<FileView>::empty());
    }
    while i < files.len()
        invariant
            i <= files@.len(),
            all == file_views(files@),
            keep == (|file: FileView| is_downloadable(file, authenticated)),
            selected_views(selected@) == all.take(i as int).filter(keep),
            private_count + selected@.len() == i,
        decreases files@.len() - i,
    {
        let ghost before = selected_views(selected@);
        proof {
            lemma_filter_step(all, i as int, keep);
        }
        let file = &files[i];
        if private_file(file) && !authenticated {
            private_count += 1;
        } else {
            selected.push(file);
            assert(selected_views(selected@) =~= before.push(all[i as int]));
        }
        i += 1;
    }
    proof {
        assert(all.take(i as int) =~= all);
        let picks = lemma_selection(files@, authenticated);
        assert forall|k: int| 0 <= k < picks.len() implies (#[trigger] selected@[k])@
            == files@[picks[k]]@ by {
            assert(selected_views(selected@)[k] == selected@[k]@);
        }
    }
    (selected, private_count)
}

fn copy_option(text: &Option<String>) -> (copy: Option<String>)
    ensures
        option_view(copy) == option_view(*text),
{
    match text {
        Some(text) => Some(text.clone()),
        None => None,
    }
}

/// Makes the plan for selected files, each with its URL at the same place. The
/// first file without a URL ends the run.
pub fn assemble_plan(
    files: &Vec<&ListedFile>,
    urls: &Vec<Result<String, IaGetError>>,
    private_count: usize,
) -> (plan: Result<DownloadPlan, IaGetError>)
    requires
        files@.len() == urls@.len(),
    ensures
        plan_view(plan) == assembled(
            selected_views(files@),
            url_views(urls@),
            private_count as int,
        ),
        plan is Ok <==> forall|k: int| 0 <= k < urls@.len() ==> (#[trigger] urls@[k]) is Ok,
        plan matches Ok(plan) ==> {
            &&& plan.private_count == private_count
            &&& plan.download_data@.len() == files@.len()
            &&& forall|k: int|
                0 <= k < files@.len() ==> {
                    let download = #[trigger] plan.download_data@[k];
                    &&& download.url@ == urls@[k]->Ok_0@
                    &&& download.local_name@ == files@[k].local_name@
                    &&& download.md5 is Some <==> files@[k].md5 is Some
                    &&& download.md5 is Some ==> download.md5->0@ == files@[k].md5->0@
                }
            &&& exists|told: Seq<int>| #[trigger]
                lists_renamed(told, files@) && told.len() == plan.sanitized_files@.len()
                    && forall|k: int|
                    0 <= k < told.len() ==> (#[trigger] plan.sanitized_files@[k]).0@
                        == files@[told[k]].name@ && plan.sanitized_files@[k].1@
                        == files@[told[k]].local_name@
        },
        plan matches Err(error) ==> exists|k: int|
            0 <= k < urls@.len() && (#[trigger] urls@[k] matches Err(problem) && problem@ == error@)
                && forall|j: int| 0 <= j < k ==> (#[trigger] urls@[j]) is Ok,
{
    let ghost all = selected_views(files@);
    let ghost all_urls = url_views(urls@);
    let ghost renamed = |file: FileView| file.renamed;
    let mut download_data: Vec<Download> = Vec::new();
    let mut sanitized_files: Vec<(String, String)> = Vec::new();
    let mut i: usize = 0;
    let ghost mut names: Seq<(Seq<char>, Seq<char>)> = Seq::empty();
    proof {
        assert(all.take(0).filter(renamed) =~= Seq::<FileView>::empty()) by {
            reveal(Seq::filter);
        }
        assert(names =~= renamed_files(all.take(0)));
    }
    while i < files.len()
        invariant
            i <= files@.len(),
            files@.len() == urls@.len(),
            all == selected_views(files@),
            all_urls == url_views(urls@),
            renamed == (|file: FileView| file.renamed),
            first_error(all_urls.take(i as int)) is None,
            download_data@.len() == i,
            forall|j: int|
                0 <= j < i ==> (#[trigger] download_data@[j])@ == (DownloadView {
                    url: all_urls[j]->Ok_0,
                    local_name: all[j].local_name,
                    md5: all[j].md5,
                }),
            names == renamed_files(all.take(i as int)),
            sanitized_files@.map_values(|names: (String, String)| (names.0@, names.1@)) == names,
        decreases files@.len() - i,
    {
        let file = files[i];
        proof {
            assert(all[i as int] == file@);
            assert(all_urls[i as int] == url_view(urls@[i as int]));
            assert(all_urls.take(i + 1).drop_last() =~= all_urls.take(i as int));
            assert(all_urls.take(i + 1).last() == all_urls[i as int]);
            lemma_filter_step(all, i as int, renamed);
        }
        let url = match &urls[i] {
            Ok(url) => url.clone(),
            Err(error) => {
                proof {
                    lemma_first_error_persists(all_urls, i + 1);
                    assert forall|j: int| 0 <= j < i implies (#[trigger] urls@[j]) is Ok by {
                        assert(all_urls[j] == url_view(urls@[j]));
                        lemma_no_first_error(all_urls.take(i as int), j);
                    }
                }
                return Err(error.clone());
            },
        };
        let ghost before = sanitized_files@.map_values(
            |names: (String, String)| (names.0@, names.1@),
        );
        if file.renamed {
            sanitized_files.push((file.name.clone(), file.local_name.clone()));
            proof {
                names = names.push((file@.name, file@.local_name));
                assert(sanitized_files@.map_values(
                    |names: (String, String)| (names.0@, names.1@),
                ) =~= names);
            }
        }
        assert(names =~= renamed_files(all.take(i + 1)));
        download_data.push(
            Download {
                url,
                local_name: file.local_name.clone(),
                md5: copy_option(&file.md5),
            },
        );
        i += 1;
    }
    let plan = DownloadPlan { download_data, sanitized_files, private_count };
    proof {
        assert(all_urls.take(i as int) =~= all_urls);
        assert(all.take(i as int) =~= all);
        assert(plan@ =~= plan_of(all, all_urls, private_count as int));
        assert forall|k: int| 0 <= k < urls@.len() implies (#[trigger] urls@[k]) is Ok by {
            assert(all_urls[k] == url_view(urls@[k]));
            lemma_no_first_error(all_urls, k);
        }
        assert forall|k: int| 0 <= k < files@.len() implies {
            let download = #[trigger] plan.download_data@[k];
            &&& download.url@ == urls@[k]->Ok_0@
            &&& download.local_name@ == files@[k].local_name@
            &&& download.md5 is Some <==> files@[k].md5 is Some
            &&& download.md5 is Some ==> download.md5->0@ == files@[k].md5->0@
        } by {
            assert(all_urls[k] == url_view(urls@[k]));
            assert(all[k] == files@[k]@);
            assert(urls@[k] is Ok);
        }
        let told = lemma_renamed(files@);
        assert forall|k: int| 0 <= k < told.len() implies (#[trigger] plan.sanitized_files@[k]).0@
            == files@[told[k]].name@ && plan.sanitized_files@[k].1@
            == files@[told[k]].local_name@ by {
            assert(plan@.sanitized_files[k] == (
                plan.sanitized_files@[k].0@,
                plan.sanitized_files@[k].1@,
            ));
            assert(renamed_files(all)[k] == (
                files@[told[k]].name@,
                files@[told[k]].local_name@,
            ));
        }
        assert(plan@.sanitized_files.len() == plan.sanitized_files@.len());
    }
    Ok(plan)
}

/// The URL of the file `name` in the directory of the item `identifier`.
pub open spec fn item_file_url(identifier: Seq<char>, name: Seq<char>) -> Result<
    Seq<char>,
    ErrorView,
> {
    Ok(item_directory(identifier) + encode_path(name))
}

proof fn lemma_no_error(urls: Seq<Result<Seq<char>, ErrorView>>)
    requires
        forall|k: int| 0 <= k < urls.len() ==> (#[trigger] urls[k]) is Ok,
    ensures
        first_error(urls) is None,
    decreases urls.len(),
{
    if urls.len() > 0 {
        lemma_no_error(urls.drop_last());
        assert(urls[urls.len() - 1] is Ok);
    }
}

proof fn lemma_no_first_error(urls: Seq<Result<Seq<char>, ErrorView>>, k: int)
    requires
        first_error(urls) is None,
        0 <= k < urls.len(),
    ensures
        urls[k] is Ok,
    decreases urls.len(),
{
    if k < urls.len() - 1 {
        lemma_no_first_error(urls.drop_last(), k);
    }
}

/// Plans the downloads of an item from its file list at `base_url`.
///
/// Where the base is the file list of a plain identifier and all names are
/// relative, every file has a URL: its encoded name in the directory of the
/// item.
pub fn plan_downloads(base_url: &str, files: &Vec<ListedFile>, authenticated: bool) -> (plan:
    Result<DownloadPlan, IaGetError>)
    ensures
        plan_view(plan) == planned(base_url@, file_views(files@), authenticated),
        plan matches Ok(plan) ==> exists|picks: Seq<int>| #[trigger]
            is_selection(picks, files@, authenticated) && plan.download_data@.len() == picks.len()
                && plan.private_count == files@.len() - picks.len() && forall|k: int|
                0 <= k < picks.len() ==> {
                    let download = #[trigger] plan.download_data@[k];
                    let file = files@[picks[k]];
                    &&& download.local_name@ == file.local_name@
                    &&& download.md5 is Some <==> file.md5 is Some
                    &&& download.md5 is Some ==> download.md5->0@ == file.md5->0@
                    &&& joined_url(base_url@, encode_path(file.name@)) == Ok::<
                        Seq<char>,
                        Seq<char>,
                    >(download.url@)
                },
        forall|identifier: Seq<char>|
            is_plain_identifier(identifier) && base_url@ == #[trigger] file_list_url(identifier)
                && (forall|k: int|
                0 <= k < downloadable(file_views(files@), authenticated).len()
                    ==> is_relative_name(
                    (#[trigger] downloadable(file_views(files@), authenticated)[k]).name,
                )) ==> plan is Ok && forall|k: int|
                0 <= k < downloadable(file_views(files@), authenticated).len() ==> (
                #[trigger] plan->Ok_0@.download_data[k]).url == item_directory(identifier)
                    + encode_path(downloadable(file_views(files@), authenticated)[k].name),
{
    let (selected, private_count) = select_files(files, authenticated);
    let ghost views = selected_views(selected@);
    let mut urls: Vec<Result<String, IaGetError>> = Vec::new();
    let mut i: usize = 0;
    while i < selected.len()
        invariant
            i <= selected@.len(),
            views == selected_views(selected@),
            urls@.len() == i,
            forall|j: int|
                0 <= j < i ==> url_view(#[trigger] urls@[j]) == url_outcome(
                    joined_url(base_url@, encode_path(views[j].name)),
                ),
            forall|j: int, identifier: Seq<char>|
                0 <= j < i && is_plain_identifier(identifier) && base_url@
                    == #[trigger] file_list_url(identifier) && is_relative_name(views[j].name)
                    ==> url_view(#[trigger] urls@[j]) == item_file_url(
                    identifier,
                    views[j].name,
                ),
        decreases selected@.len() - i,
    {
        assert(views[i as int] == selected@[i as int]@);
        urls.push(download_url(base_url, selected[i].name.as_str()));
        i += 1;
    }
    let plan = assemble_plan(&selected, &urls, private_count);
    proof {
        let all_urls = url_views(urls@);
        assert(all_urls =~= file_urls(base_url@, views));
        assert(file_views(files@).len() == files@.len());
        assert(views.len() == selected@.len());
        let picks = lemma_selection(files@, authenticated);
        if plan is Ok {
            let data = plan->Ok_0.download_data@;
            assert(plan->Ok_0@.download_data.len() == data.len());
            assert forall|k: int| 0 <= k < picks.len() implies {
                let download = #[trigger] data[k];
                let file = files@[picks[k]];
                &&& download.local_name@ == file.local_name@
                &&& download.md5 is Some <==> file.md5 is Some
                &&& download.md5 is Some ==> download.md5->0@ == file.md5->0@
                &&& joined_url(base_url@, encode_path(file.name@)) == Ok::<Seq<char>, Seq<char>>(
                    download.url@,
                )
            } by {
                assert(plan->Ok_0@.download_data[k] == data[k]@);
                assert(views[k] == files@[picks[k]]@);
                lemma_no_first_error(all_urls, k);
                assert(all_urls[k] == url_outcome(
                    joined_url(base_url@, encode_path(views[k].name)),
                ));
            }
        }
        assert forall|identifier: Seq<char>|
            is_plain_identifier(identifier) && base_url@ == #[trigger] file_list_url(identifier)
                && (forall|k: int|
                0 <= k < views.len() ==> is_relative_name((#[trigger] views[k]).name)) implies plan is Ok
            && forall|k: int|
            0 <= k < views.len() ==> (#[trigger] plan->Ok_0@.download_data[k]).url
                == item_directory(identifier) + encode_path(views[k].name) by {
            assert forall|k: int| 0 <= k < all_urls.len() implies (#[trigger] all_urls[k])
                == item_file_url(identifier, views[k].name) by {
                assert(all_urls[k] == url_view(urls@[k]));
            }
            lemma_no_error(all_urls);
        }
    }
    plan
}

/// A plan with something to download, or why there is nothing.
pub open spec fn accepted(plan: PlanView) -> Result<PlanView, ErrorView> {
    if plan.download_data.len() > 0 {
        Ok(plan)
    } else if plan.private_count > 0 {
        Err(
            ErrorView::Network(
                "No downloadable files found. This archive may only contain private or restricted files. Try again with --username and --password (or --password-stdin)."@,
            ),
        )
    } else {
        Err(ErrorView::Network("No downloadable files found in archive metadata."@))
    }
}

/// Refuses a plan that downloads nothing.
pub fn accept_plan(plan: DownloadPlan) -> (accepted_plan: Result<DownloadPlan, IaGetError>)
    ensures
        plan_view(accepted_plan) == accepted(plan@),
        plan.download_data@.len() > 0 ==> (accepted_plan matches Ok(same) && same == plan),
        plan.download_data@.len() == 0 && plan.private_count > 0 ==> (accepted_plan matches Err(
            IaGetError::Network(message),
        ) && message@
            == "No downloadable files found. This archive may only contain private or restricted files. Try again with --username and --password (or --password-stdin)."@),
        plan.download_data@.len() == 0 && plan.private_count == 0 ==> (accepted_plan matches Err(
            IaGetError::Network(message),
        ) && message@ == "No downloadable files found in archive metadata."@),
{
    assert(plan@.download_data.len() == plan.download_data@.len());
    if plan.download_data.len() > 0 {
        Ok(plan)
    } else if plan.private_count > 0 {
        Err(
            IaGetError::Network(
                "No downloadable files found. This archive may only contain private or restricted files. Try again with --username and --password (or --password-stdin).".to_owned(),
            ),
        )
    } else {
        Err(IaGetError::Network("No downloadable files found in archive metadata.".to_owned()))
    }
}

/// A file is private exactly where it has a mark that says `true`: the four
/// letters, each in either case, with white space alone around them.
pub proof fn law_private_mark_says_true(file: FileView, mark: Seq<char>)
    ensures
        is_private(FileView { private: None, ..file }) == false,
        is_private(FileView { private: Some(mark), ..file }) <==> (exists|a: int|
            #![trigger mark[a]]
            0 <= a && a + 4 <= mark.len() && (mark[a] == 't' || mark[a] == 'T') && (mark[a + 1]
                == 'r' || mark[a + 1] == 'R') && (mark[a + 2] == 'u' || mark[a + 2] == 'U') && (
            mark[a + 3] == 'e' || mark[a + 3] == 'E') && (forall|i: int|
                0 <= i < a ==> is_white_space(#[trigger] mark[i])) && (forall|i: int|
                a + 4 <= i < mark.len() ==> is_white_space(#[trigger] mark[i]))),
        says_true(mark) <==> (exists|a: int|
            #![trigger mark[a]]
            0 <= a && a + 4 <= mark.len() && (mark[a] == 't' || mark[a] == 'T') && (mark[a + 1]
                == 'r' || mark[a + 1] == 'R') && (mark[a + 2] == 'u' || mark[a + 2] == 'U') && (
            mark[a + 3] == 'e' || mark[a + 3] == 'E') && (forall|i: int|
                0 <= i < a ==> is_white_space(#[trigger] mark[i])) && (forall|i: int|
                a + 4 <= i < mark.len() ==> is_white_space(#[trigger] mark[i]))),
{
    lemma_says_true(mark);
}

/// Whether a file is private depends on its mark alone, whatever its names and
/// its hash are and whether it is renamed.
pub proof fn law_privacy_depends_on_the_mark_alone(one: FileView, other: FileView)
    requires
        one.private == other.private,
    ensures
        is_private(one) == is_private(other),
        is_downloadable(one, false) == is_downloadable(other, false),
        is_downloadable(one, true) && is_downloadable(other, true),
{
}

/// A file whose mark says `true` is in no selection of a run without a login,
/// and no selection leaves out any other file.
pub proof fn law_marked_files_are_left_out(files: Seq<FileView>, i: int)
    requires
        0 <= i < files.len(),
    ensures
        files[i].private == Some("true"@) ==> !downloadable(files, false).contains(files[i]),
        (files[i].private matches Some(mark) && says_true(mark)) <==> !downloadable(
            files,
            false,
        ).contains(files[i]),
{
    reveal_strlit("true");
    if files[i].private is Some {
        let mark = files[i].private->0;
        lemma_says_true(mark);
        if mark == "true"@ {
            assert(mark[0] == 't');
        }
    }
    let keep = |file: FileView| is_downloadable(file, false);
    if is_private(files[i]) {
        if downloadable(files, false).contains(files[i]) {
            let k = choose|k: int|
                0 <= k < downloadable(files, false).len() && downloadable(files, false)[k]
                    == files[i];
            files.lemma_filter_pred(keep, k);
        }
    } else {
        files.lemma_filter_contains(keep, i);
    }
}

/// A selection follows the list: it is the files at places in ascending order,
/// and the places are all but those of files whose mark says `true` where there
/// is no login.
pub proof fn law_selection_follows_the_list(files: Seq<FileView>, authenticated: bool) -> (picks: Seq<
    int,
>)
    ensures
        picks.len() == downloadable(files, authenticated).len(),
        forall|k: int| 0 <= k < picks.len() ==> 0 <= #[trigger] picks[k] < files.len(),
        forall|j: int, k: int|
            0 <= j < k < picks.len() ==> #[trigger] picks[j] < #[trigger] picks[k],
        forall|k: int|
            0 <= k < picks.len() ==> #[trigger] downloadable(files, authenticated)[k]
                == files[picks[k]],
        forall|i: int|
            0 <= i < files.len() ==> (#[trigger] picks.contains(i) <==> authenticated || !(
            files[i].private matches Some(mark) && says_true(mark))),
{
    let keep = |file: FileView| is_downloadable(file, authenticated);
    let picks = lemma_filter_lists(files, keep);
    assert forall|i: int| 0 <= i < files.len() implies (#[trigger] picks.contains(i)
        <==> authenticated || !(files[i].private matches Some(mark) && says_true(mark))) by {
        if files[i].private is Some {
            lemma_says_true(files[i].private->0);
        }
    }
    picks
}

/// Every download carries what the list says of its file, and nothing else: its
/// local name and its hash as they are listed, and the URL that its encoded name
/// joins to. The files that are left out are counted.
pub proof fn law_downloads_carry_the_listed_files(
    base_url: Seq<char>,
    files: Seq<FileView>,
    authenticated: bool,
)
    ensures
        planned(base_url, files, authenticated) matches Ok(plan) ==> {
            let selected = downloadable(files, authenticated);
            &&& plan.download_data.len() == selected.len()
            &&& plan.private_count == files.len() - selected.len()
            &&& forall|k: int|
                0 <= k < selected.len() ==> {
                    let download = #[trigger] plan.download_data[k];
                    &&& download.local_name == selected[k].local_name
                    &&& download.md5 == selected[k].md5
                    &&& joined_url(base_url, encode_path(selected[k].name)) == Ok::<
                        Seq<char>,
                        Seq<char>,
                    >(download.url)
                }
        },
{
    let selected = downloadable(files, authenticated);
    let urls = file_urls(base_url, selected);
    if planned(base_url, files, authenticated) is Ok {
        let plan = planned(base_url, files, authenticated)->Ok_0;
        assert forall|k: int| 0 <= k < selected.len() implies {
            let download = #[trigger] plan.download_data[k];
            &&& download.local_name == selected[k].local_name
            &&& download.md5 == selected[k].md5
            &&& joined_url(base_url, encode_path(selected[k].name)) == Ok::<Seq<char>, Seq<char>>(
                download.url,
            )
        } by {
            lemma_no_first_error(urls, k);
        }
    }
}

/// Files whose listed local names differ are stored under different names: no
/// download is stored over another.
pub proof fn law_local_names_stay_apart(
    base_url: Seq<char>,
    files: Seq<FileView>,
    authenticated: bool,
    plan: PlanView,
    j: int,
    k: int,
)
    requires
        planned(base_url, files, authenticated) == Ok::<PlanView, ErrorView>(plan),
        0 <= j < plan.download_data.len(),
        0 <= k < plan.download_data.len(),
    ensures
        plan.download_data[j].local_name == plan.download_data[k].local_name <==> downloadable(
            files,
            authenticated,
        )[j].local_name == downloadable(files, authenticated)[k].local_name,
{
    law_downloads_carry_the_listed_files(base_url, files, authenticated);
}

/// The renamed files that a plan tells of are those of its downloads, in order
/// and all of them, each with its listed name and its local one.
pub proof fn law_plan_tells_of_renamed_files(
    base_url: Seq<char>,
    files: Seq<FileView>,
    authenticated: bool,
    plan: PlanView,
) -> (told: Seq<int>)
    requires
        planned(base_url, files, authenticated) == Ok::<PlanView, ErrorView>(plan),
    ensures
        told.len() == plan.sanitized_files.len(),
        forall|k: int|
            0 <= k < told.len() ==> 0 <= #[trigger] told[k] < downloadable(
                files,
                authenticated,
            ).len(),
        forall|j: int, k: int|
            0 <= j < k < told.len() ==> #[trigger] told[j] < #[trigger] told[k],
        forall|k: int|
            0 <= k < told.len() ==> #[trigger] plan.sanitized_files[k] == (
                downloadable(files, authenticated)[told[k]].name,
                downloadable(files, authenticated)[told[k]].local_name,
            ),
        forall|i: int|
            0 <= i < downloadable(files, authenticated).len() ==> (#[trigger] told.contains(i)
                <==> downloadable(files, authenticated)[i].renamed),
{
    let selected = downloadable(files, authenticated);
    let renamed = |file: FileView| file.renamed;
    let told = lemma_filter_lists(selected, renamed);
    assert forall|k: int| 0 <= k < told.len() implies #[trigger] plan.sanitized_files[k] == (
        selected[told[k]].name,
        selected[told[k]].local_name,
    ) by {
        assert(selected.filter(renamed)[k] == selected[told[k]]);
    }
    told
}

/// Planning fails exactly where some file to download has no URL, and reports
/// the first such file with the message as it came.
pub proof fn law_first_file_without_url_is_reported(
    base_url: Seq<char>,
    files: Seq<FileView>,
    authenticated: bool,
)
    ensures
        planned(base_url, files, authenticated) is Ok <==> forall|k: int|
            0 <= k < downloadable(files, authenticated).len() ==> joined_url(
                base_url,
                encode_path((#[trigger] downloadable(files, authenticated)[k]).name),
            ) is Ok,
        planned(base_url, files, authenticated) matches Err(error) ==> exists|k: int|
            0 <= k < downloadable(files, authenticated).len() && (joined_url(
                base_url,
                encode_path((#[trigger] downloadable(files, authenticated)[k]).name),
            ) matches Err(message) && error == ErrorView::Url(message)) && forall|j: int|
                0 <= j < k ==> joined_url(
                    base_url,
                    encode_path((#[trigger] downloadable(files, authenticated)[j]).name),
                ) is Ok,
{
    let selected = downloadable(files, authenticated);
    let urls = file_urls(base_url, selected);
    assert forall|k: int| 0 <= k < selected.len() implies (#[trigger] urls[k]) == url_outcome(
        joined_url(base_url, encode_path(selected[k].name)),
    ) by {}
    if first_error(urls) is Some {
        let k = lemma_first_error_place(urls);
        assert(urls[k] == url_outcome(joined_url(base_url, encode_path(selected[k].name))));
        assert(joined_url(base_url, encode_path(selected[k].name)) is Err);
        assert forall|j: int| 0 <= j < k implies joined_url(
            base_url,
            encode_path((#[trigger] selected[j]).name),
        ) is Ok by {
            assert(urls[j] is Ok);
        }
    } else {
        assert forall|k: int| 0 <= k < selected.len() implies joined_url(
            base_url,
            encode_path((#[trigger] selected[k]).name),
        ) is Ok by {
            lemma_no_first_error(urls, k);
            assert(urls[k] is Ok);
        }
    }
}

proof fn lemma_first_error_place(urls: Seq<Result<Seq<char>, ErrorView>>) -> (k: int)
    requires
        first_error(urls) is Some,
    ensures
        0 <= k < urls.len(),
        urls[k] is Err,
        first_error(urls) == Some(urls[k]->Err_0),
        forall|j: int| 0 <= j < k ==> (#[trigger] urls[j]) is Ok,
    decreases urls.len(),
{
    let init = urls.drop_last();
    if first_error(init) is Some {
        let k = lemma_first_error_place(init);
        assert(urls[k] == init[k]);
        assert forall|j: int| 0 <= j < k implies (#[trigger] urls[j]) is Ok by {
            assert(init[j] is Ok);
        }
        k
    } else {
        assert forall|j: int| 0 <= j < urls.len() - 1 implies (#[trigger] urls[j]) is Ok by {
            lemma_no_first_error(init, j);
            assert(urls[j] == init[j]);
        }
        urls.len() - 1
    }
}

/// What contracts see of a file, a download and a plan is what these hold.
pub proof fn law_views_hold_the_fields(file: ListedFile, download: Download, plan: DownloadPlan)
    ensures
        file@.name == file.name@,
        file@.local_name == file.local_name@,
        file@.renamed == file.renamed,
        file@.private is Some <==> file.private is Some,
        file.private is Some ==> file@.private->0 == file.private->0@,
        file@.md5 is Some <==> file.md5 is Some,
        file.md5 is Some ==> file@.md5->0 == file.md5->0@,
        download@.url == download.url@,
        download@.local_name == download.local_name@,
        download@.md5 is Some <==> download.md5 is Some,
        download.md5 is Some ==> download@.md5->0 == download.md5->0@,
        plan@.private_count == plan.private_count,
        plan@.download_data.len() == plan.download_data@.len(),
        forall|k: int|
            0 <= k < plan.download_data@.len() ==> #[trigger] plan@.download_data[k]
                == plan.download_data@[k]@,
        plan@.sanitized_files.len() == plan.sanitized_files@.len(),
        forall|k: int|
            0 <= k < plan.sanitized_files@.len() ==> #[trigger] plan@.sanitized_files[k] == (
                plan.sanitized_files@[k].0@,
                plan.sanitized_files@[k].1@,
            ),
        plan_view(Ok(plan)) == Ok::<PlanView, ErrorView>(plan@),
{
}

/// The files as contracts see them are the listed files, one for one.
pub proof fn law_file_views_follow_the_list(files: Seq<ListedFile>, selected: Seq<&ListedFile>)
    ensures
        file_views(files).len() == files.len(),
        forall|i: int| 0 <= i < files.len() ==> #[trigger] file_views(files)[i] == files[i]@,
        selected_views(selected).len() == selected.len(),
        forall|i: int|
            0 <= i < selected.len() ==> #[trigger] selected_views(selected)[i] == selected[i]@,
{
}

/// A plan with downloads is accepted as it is, and no other is.
pub proof fn law_accepted_plan_is_unchanged(plan: PlanView)
    ensures
        plan.download_data.len() > 0 ==> accepted(plan) == Ok::<PlanView, ErrorView>(plan),
        accepted(plan) is Ok ==> plan.download_data.len() > 0,
        plan.download_data.len() == 0 && plan.private_count > 0 ==> accepted(plan) == Err::<
            PlanView,
            ErrorView,
        >(
            ErrorView::Network(
                "No downloadable files found. This archive may only contain private or restricted files. Try again with --username and --password (or --password-stdin)."@,
            ),
        ),
        plan.download_data.len() == 0 && plan.private_count <= 0 ==> accepted(plan) == Err::<
            PlanView,
            ErrorView,
        >(ErrorView::Network("No downloadable files found in archive metadata."@)),
{
}

/// No private file is downloaded without a login.
pub proof fn law_private_files_need_a_login(files: Seq<FileView>)
    ensures
        forall|k: int|
            0 <= k < downloadable(files, false).len() ==> !is_private(
                #[trigger] downloadable(files, false)[k],
            ),
{
    let keep = |file: FileView| is_downloadable(file, false);
    assert forall|k: int| 0 <= k < downloadable(files, false).len() implies !is_private(
        #[trigger] downloadable(files, false)[k],
    ) by {
        files.lemma_filter_pred(keep, k);
    }
}

/// With a login every file of the item is downloaded, in the order of the list.
pub proof fn law_login_downloads_everything(files: Seq<FileView>)
    ensures
        downloadable(files, true) == files,
    decreases files.len(),
{
    reveal(Seq::filter);
    if files.len() > 0 {
        law_login_downloads_everything(files.drop_last());
        assert(files.drop_last().push(files.last()) =~= files);
    }
}

/// A file that is not private is downloaded by every run.
pub proof fn law_public_files_are_always_downloaded(
    files: Seq<FileView>,
    authenticated: bool,
    i: int,
)
    requires
        0 <= i < files.len(),
        !is_private(files[i]),
    ensures
        downloadable(files, authenticated).contains(files[i]),
{
    files.lemma_filter_contains(|file: FileView| is_downloadable(file, authenticated), i);
}

/// Every listed file is either downloaded or counted as private.
pub proof fn law_every_file_is_accounted_for(
    base_url: Seq<char>,
    files: Seq<FileView>,
    authenticated: bool,
)
    ensures
        planned(base_url, files, authenticated) matches Ok(plan) ==> {
            &&& plan.download_data.len() + plan.private_count == files.len()
            &&& plan.private_count >= 0
            &&& authenticated ==> plan.private_count == 0
            &&& plan.sanitized_files.len() <= plan.download_data.len()
        },
{
    let selected = downloadable(files, authenticated);
    files.lemma_filter_len(|file: FileView| is_downloadable(file, authenticated));
    selected.lemma_filter_len(|file: FileView| file.renamed);
    if authenticated {
        law_login_downloads_everything(files);
    }
}

/// A refused plan points at the login exactly where private files are all that
/// there is.
pub proof fn law_login_is_advised_for_private_items(
    base_url: Seq<char>,
    files: Seq<FileView>,
    authenticated: bool,
    plan: PlanView,
)
    requires
        planned(base_url, files, authenticated) == Ok::<PlanView, ErrorView>(plan),
    ensures
        accepted(plan) is Err <==> downloadable(files, authenticated).len() == 0,
        accepted(plan) == Err::<PlanView, ErrorView>(
            ErrorView::Network("No downloadable files found in archive metadata."@),
        ) <==> files.len() == 0,
        accepted(plan) == Err::<PlanView, ErrorView>(
            ErrorView::Network(
                "No downloadable files found. This archive may only contain private or restricted files. Try again with --username and --password (or --password-stdin)."@,
            ),
        ) <==> files.len() > 0 && downloadable(files, authenticated).len() == 0,
{
    law_every_file_is_accounted_for(base_url, files, authenticated);
    reveal_strlit(
        "No downloadable files found. This archive may only contain private or restricted files. Try again with --username and --password (or --password-stdin).",
    );
    reveal_strlit("No downloadable files found in archive metadata.");
    assert("No downloadable files found. This archive may only contain private or restricted files. Try again with --username and --password (or --password-stdin)."@.len()
        != "No downloadable files found in archive metadata."@.len());
}

} // verus!
